use qnap::network::{nic_pairs, parse_dns, parse_nics, parse_u64};

const FIXTURE: &str = r#"<QDocRoot>
        <nic_cnt><![CDATA[2]]></nic_cnt>
        <ifname1>eth0</ifname1>
        <dname1>Adapter 1</dname1>
        <eth_ip1>192.168.1.50</eth_ip1>
        <eth_mask1>255.255.255.0</eth_mask1>
        <eth_mac1>aa:bb:cc:dd:ee:ff</eth_mac1>
        <eth_status1>1</eth_status1>
        <eth_max_speed1>1000</eth_max_speed1>
        <eth_usage1>DHCP</eth_usage1>
        <rx_packet1>1000000</rx_packet1>
        <tx_packet1>500000</tx_packet1>
        <err_packet1>0</err_packet1>
        <ifname2>eth1</ifname2>
        <dname2>Adapter 2</dname2>
        <eth_ip2>0.0.0.0</eth_ip2>
        <eth_status2>0</eth_status2>
        <eth_max_speed2>1000</eth_max_speed2>
        <dnsInfo>
            <DNS_LIST><![CDATA[192.168.1.1]]></DNS_LIST>
            <DNS_LIST><![CDATA[8.8.8.8]]></DNS_LIST>
        </dnsInfo>
    </QDocRoot>"#;

#[test]
fn parse_nics_count() {
    let nics = parse_nics(FIXTURE);
    assert_eq!(nics.len(), 2);
}

#[test]
fn parse_nics_first_adapter() {
    let nics = parse_nics(FIXTURE);
    assert_eq!(nics[0].name, "eth0");
    assert_eq!(nics[0].status, "up");
    assert_eq!(nics[0].ip.as_deref(), Some("192.168.1.50"));
    assert_eq!(nics[0].mac.as_deref(), Some("aa:bb:cc:dd:ee:ff"));
    assert_eq!(nics[0].speed_mbps, Some(1000));
    assert_eq!(nics[0].mode.as_deref(), Some("DHCP"));
    assert_eq!(nics[0].rx_packets, Some(1000000));
}

#[test]
fn parse_nics_second_adapter_down() {
    let nics = parse_nics(FIXTURE);
    assert_eq!(nics[1].name, "eth1");
    assert_eq!(nics[1].status, "down");
}

#[test]
fn parse_dns_entries() {
    let dns = parse_dns(FIXTURE);
    assert_eq!(dns, vec!["192.168.1.1", "8.8.8.8"]);
}

#[test]
fn parse_nics_defaults_for_missing_names() {
    let body = "<nic_cnt> 3 </nic_cnt><eth_status2>7</eth_status2>";
    let nics = parse_nics(body);
    assert_eq!(nics.len(), 3);
    assert_eq!(nics[2].name, "eth2");
    assert_eq!(nics[2].display_name, "Adapter 3");
    assert_eq!(nics[1].status, "unknown");
    assert_eq!(nics[0].ip, None);
    assert_eq!(nics[0].speed_mbps, None);
}

#[test]
fn parse_nics_without_count_is_empty() {
    assert!(parse_nics("<ifname1>eth0</ifname1>").is_empty());
    assert!(parse_nics("<nic_cnt>two</nic_cnt>").is_empty());
}

#[test]
fn parse_u64_reads_trimmed_numbers() {
    assert_eq!(parse_u64("<n> +42 </n>", "n"), Some(42));
    assert_eq!(parse_u64("<n>18446744073709551615</n>", "n"), Some(u64::MAX));
    assert_eq!(parse_u64("<n>18446744073709551616</n>", "n"), None);
    assert_eq!(parse_u64("<n>-1</n>", "n"), None);
    assert_eq!(parse_u64("<n>+</n>", "n"), None);
    assert_eq!(parse_u64("<n></n>", "n"), None);
    assert_eq!(parse_u64("<m>1</m>", "n"), None);
}

#[test]
fn parse_dns_skips_blank_entries() {
    let body = "<DNS_LIST>  </DNS_LIST><DNS_LIST> 1.1.1.1 </DNS_LIST>";
    assert_eq!(parse_dns(body), vec!["1.1.1.1"]);
}

#[test]
fn nic_table_pairs() {
    let nics = parse_nics(FIXTURE);
    let keys: Vec<String> = nic_pairs(&nics[0]).into_iter().map(|(k, v)| format!("{}={}", k, v)).collect();
    assert_eq!(
        keys,
        vec![
            "interface=eth0",
            "status=up",
            "ip=192.168.1.50",
            "mask=255.255.255.0",
            "mac=aa:bb:cc:dd:ee:ff",
            "speed=1000 Mbps",
            "mode=DHCP",
            "rx_packets=1000000",
            "tx_packets=500000",
        ]
    );
    let second: Vec<String> = nic_pairs(&nics[1]).into_iter().map(|(k, _)| k).collect();
    assert_eq!(second, vec!["interface", "status", "ip", "speed"]);
}

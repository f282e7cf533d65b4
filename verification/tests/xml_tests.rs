use qnap::xml::{anonymize_xml, extract_xml_value, extract_xml_values, format_uptime, redact_xml_tag, xml_fields_to_map};

/// A sysinfo answer shaped like the one a TS-x28A on QTS 5.2 gives.
const SYSINFO: &str = r#"<?xml version="1.0" encoding="UTF-8" ?>
<QDocRoot version="1.0">
<authPassed><![CDATA[1]]></authPassed>
<func>
<name><![CDATA[sysinfo]]></name>
<ownContent>
<root>
<modelName><![CDATA[TS-228A]]></modelName>
<hostname><![CDATA[NAS-TEST]]></hostname>
<serial_number><![CDATA[Q123456789]]></serial_number>
<version><![CDATA[5.2.4]]></version>
<build><![CDATA[20250326]]></build>
<timezone><![CDATA[(GMT+01:00) Amsterdam]]></timezone>
<total_memory><![CDATA[1969.3]]></total_memory>
<free_memory><![CDATA[1201.6]]></free_memory>
<cpu_usage><![CDATA[3.2 %]]></cpu_usage>
<sys_tempc><![CDATA[41]]></sys_tempc>
<uptime_day><![CDATA[12]]></uptime_day>
<uptime_hour><![CDATA[7]]></uptime_hour>
<uptime_min><![CDATA[45]]></uptime_min>
<uptime_sec><![CDATA[9]]></uptime_sec>
<disk_num><![CDATA[2]]></disk_num>
<disk_installed1><![CDATA[1]]></disk_installed1>
<hd_pd_alias1><![CDATA[WDC WD40EFRX]]></hd_pd_alias1>
<tempc1><![CDATA[35]]></tempc1>
<hd_is_ssd1><![CDATA[0]]></hd_is_ssd1>
<disk_installed2><![CDATA[0]]></disk_installed2>
<nic_cnt><![CDATA[1]]></nic_cnt>
<ifname1><![CDATA[eth0]]></ifname1>
<eth_ip1><![CDATA[192.168.1.20]]></eth_ip1>
<dnsInfo>
<DNS_LIST><![CDATA[192.168.1.1]]></DNS_LIST>
</dnsInfo>
</root>
</ownContent>
</func>
</QDocRoot>"#;

/// A volume list with two rows, shaped like the disk manager's answer.
const VOLUMES: &str = r#"<QDocRoot version="1.0">
<authPassed><![CDATA[1]]></authPassed>
<Volume_Info>
<row>
<vol_no><![CDATA[1]]></vol_no>
<vol_label><![CDATA[DataVol1]]></vol_label>
<vol_status><![CDATA[0]]></vol_status>
<poolID><![CDATA[1]]></poolID>
<lv_type><![CDATA[1]]></lv_type>
</row>
<row>
<vol_no><![CDATA[2]]></vol_no>
<vol_label><![CDATA[Backup]]></vol_label>
<vol_status><![CDATA[-5]]></vol_status>
<poolID><![CDATA[2]]></poolID>
<lv_type><![CDATA[2]]></lv_type>
</row>
</Volume_Info>
</QDocRoot>"#;

#[test]
fn test_extract_xml_value_plain() {
    assert_eq!(
        extract_xml_value("<hostname>MYNAS</hostname>", "hostname"),
        Some("MYNAS".to_string())
    );
}

#[test]
fn test_extract_xml_value_cdata() {
    assert_eq!(
        extract_xml_value("<cpu_usage><![CDATA[12 %]]></cpu_usage>", "cpu_usage"),
        Some("12 %".to_string())
    );
}

#[test]
fn test_extract_xml_value_numeric_cdata() {
    assert_eq!(
        extract_xml_value("<uptime_day><![CDATA[5]]></uptime_day>", "uptime_day"),
        Some("5".to_string())
    );
}

#[test]
fn test_extract_xml_value_missing_tag() {
    assert_eq!(extract_xml_value("<foo>bar</foo>", "baz"), None);
}

#[test]
fn test_extract_xml_value_empty_value() {
    assert_eq!(extract_xml_value("<foo></foo>", "foo"), Some("".to_string()));
}

#[test]
fn test_extract_xml_value_returns_first_match() {
    assert_eq!(extract_xml_value("<foo>1</foo><foo>2</foo>", "foo"), Some("1".to_string()));
}

#[test]
fn test_extract_xml_value_realistic_sysinfo() {
    let body = r#"<QDocRoot>
            <modelName><![CDATA[TS-453Be]]></modelName>
            <hostname><![CDATA[MYNAS]]></hostname>
            <version><![CDATA[5.1.0.2348]]></version>
        </QDocRoot>"#;
    assert_eq!(extract_xml_value(body, "modelName"), Some("TS-453Be".to_string()));
    assert_eq!(extract_xml_value(body, "hostname"), Some("MYNAS".to_string()));
    assert_eq!(extract_xml_value(body, "missing"), None);
}

#[test]
fn extract_xml_value_open_without_close_is_none() {
    assert_eq!(extract_xml_value("<foo>dangling", "foo"), None);
}

#[test]
fn extract_xml_value_partial_cdata_is_kept() {
    assert_eq!(
        extract_xml_value("<foo><![CDATA[x</foo>", "foo"),
        Some("<![CDATA[x".to_string())
    );
    assert_eq!(extract_xml_value("<foo><![CDATA[]]></foo>", "foo"), Some("".to_string()));
}

#[test]
fn extract_xml_value_non_ascii() {
    assert_eq!(
        extract_xml_value("<n>é</n><name>Zürich — NAS</name>", "name"),
        Some("Zürich — NAS".to_string())
    );
}

#[test]
fn test_xml_fields_to_map_present_fields() {
    let body = "<hostname>MYNAS</hostname><version>5.1.0</version>";
    let fields = &[("hostname", "hostname"), ("firmware", "version")];
    let map = xml_fields_to_map(body, fields);
    assert_eq!(map.get("hostname").and_then(|v| v.as_str()), Some("MYNAS"));
    assert_eq!(map.get("firmware").and_then(|v| v.as_str()), Some("5.1.0"));
}

#[test]
fn test_xml_fields_to_map_missing_fields_are_skipped() {
    let body = "<hostname>MYNAS</hostname>";
    let fields = &[("hostname", "hostname"), ("missing", "nothere")];
    let map = xml_fields_to_map(body, fields);
    assert!(map.contains_key("hostname"));
    assert!(!map.contains_key("missing"));
}

#[test]
fn xml_fields_to_map_repeated_key_keeps_last_value() {
    let body = "<a>1</a><b>2</b>";
    let map = xml_fields_to_map(body, &[("k", "a"), ("k", "b"), ("k", "missing")]);
    assert_eq!(map.len(), 1);
    assert_eq!(map["k"], "2");
}

#[test]
fn test_xml_fields_to_map_empty_body() {
    let map = xml_fields_to_map("", &[("key", "tag")]);
    assert!(map.is_empty());
}

#[test]
fn test_format_uptime_all_fields() {
    let body = "<uptime_day>5</uptime_day><uptime_hour>12</uptime_hour><uptime_min>30</uptime_min>";
    assert_eq!(format_uptime(body), Some("5d 12h 30m".to_string()));
}

#[test]
fn test_format_uptime_zero_day() {
    let body = "<uptime_day>0</uptime_day><uptime_hour>0</uptime_hour><uptime_min>5</uptime_min>";
    assert_eq!(format_uptime(body), Some("0d 0h 5m".to_string()));
}

#[test]
fn test_format_uptime_missing_day_tag() {
    assert_eq!(format_uptime("<foo>bar</foo>"), None);
}

#[test]
fn test_format_uptime_empty_day_value() {
    assert_eq!(
        format_uptime(
            "<uptime_day></uptime_day><uptime_hour>1</uptime_hour><uptime_min>0</uptime_min>"
        ),
        None
    );
}

#[test]
fn format_uptime_missing_hour_and_minute_are_empty() {
    assert_eq!(format_uptime("<uptime_day>3</uptime_day>"), Some("3d h m".to_string()));
}

#[test]
fn fixture_sysinfo_required_fields_present() {
    for tag in &[
        "modelName",
        "hostname",
        "version",
        "build",
        "total_memory",
        "uptime_day",
        "uptime_hour",
        "uptime_min",
    ] {
        assert!(extract_xml_value(SYSINFO, tag).is_some(), "missing sysinfo field: {}", tag);
    }
}

#[test]
fn fixture_sysinfo_uptime_parses() {
    let uptime = format_uptime(SYSINFO);
    assert!(uptime.is_some(), "format_uptime returned None for fixture");
    let s = uptime.unwrap();
    assert!(
        s.contains('d') && s.contains('h') && s.contains('m'),
        "unexpected uptime format: {}",
        s
    );
}

#[test]
fn fixture_sysinfo_xml_fields_to_map() {
    let fields = &[("model", "modelName"), ("firmware", "version"), ("hostname", "hostname")];
    let map = xml_fields_to_map(SYSINFO, fields);
    assert_eq!(map.len(), 3, "expected 3 fields from sysinfo");
    assert!(map["model"].as_str().unwrap().len() > 0);
    assert!(map["firmware"].as_str().unwrap().len() > 0);
}

#[test]
fn fixture_volumes_contains_rows() {
    assert!(VOLUMES.contains("<row>"), "no <row> elements found in volumes fixture");
}

#[test]
fn fixture_volumes_row_fields_present() {
    let mut remaining = VOLUMES;
    let mut count = 0;
    while let Some(start) = remaining.find("<row>") {
        remaining = &remaining[start + "<row>".len()..];
        let end = remaining.find("</row>").unwrap_or(remaining.len());
        let block = &remaining[..end];
        remaining = &remaining[end..];
        count += 1;

        assert!(extract_xml_value(block, "vol_status").is_some(), "row {} missing vol_status", count);
        assert!(extract_xml_value(block, "vol_label").is_some(), "row {} missing vol_label", count);
    }
    assert!(count > 0, "no <row> elements parsed from volumes fixture");
}

#[test]
fn redact_plain_tag() {
    let xml = "<foo>sensitive</foo>";
    assert_eq!(redact_xml_tag(xml, "foo", "REDACTED"), "<foo>REDACTED</foo>");
}

#[test]
fn redact_cdata_tag() {
    let xml = "<hostname><![CDATA[MYNAS]]></hostname>";
    assert_eq!(
        redact_xml_tag(xml, "hostname", "<![CDATA[REDACTED]]>"),
        "<hostname><![CDATA[REDACTED]]></hostname>"
    );
}

#[test]
fn redact_preserves_surrounding_content() {
    let xml = "<a>1</a><serial_number>ABC123</serial_number><b>2</b>";
    let result = redact_xml_tag(xml, "serial_number", "REDACTED");
    assert_eq!(result, "<a>1</a><serial_number>REDACTED</serial_number><b>2</b>");
}

#[test]
fn redact_multiple_occurrences() {
    let xml = "<ip>1.2.3.4</ip><ip>5.6.7.8</ip>";
    let result = redact_xml_tag(xml, "ip", "x.x.x.x");
    assert_eq!(result, "<ip>x.x.x.x</ip><ip>x.x.x.x</ip>");
}

#[test]
fn redact_open_tag_without_close_is_kept() {
    assert_eq!(redact_xml_tag("<ip>1.2.3.4", "ip", "x"), "<ip>1.2.3.4");
    assert_eq!(extract_xml_value(&redact_xml_tag("<ip>1.2.3.4", "ip", "x"), "ip"), None);
    assert_eq!(redact_xml_tag("<a>1</a>", "ip", "x"), "<a>1</a>");
    assert_eq!(redact_xml_tag("<ip>1</ip><ip>2", "ip", "x"), "<ip>x</ip><ip>2");
}

#[test]
fn redact_without_tag_is_identity() {
    let xml = "<a>1</a><b>2</b>";
    assert_eq!(redact_xml_tag(xml, "c", "x"), xml);
}

#[test]
fn read_after_redact_gives_replacement() {
    let redacted = redact_xml_tag(SYSINFO, "hostname", "<![CDATA[REDACTED]]>");
    assert_eq!(extract_xml_value(&redacted, "hostname"), Some("REDACTED".to_string()));
    assert_eq!(extract_xml_value(&redacted, "modelName"), Some("TS-228A".to_string()));
}

#[test]
fn every_value_reads_replacement_after_redact() {
    let body = "<dns>1.1.1.1</dns><x>k</x><dns><![CDATA[8.8.8.8]]></dns><dns></dns><dns>open";
    assert_eq!(extract_xml_values(body, "dns").len(), 3);
    let redacted = redact_xml_tag(body, "dns", "<![CDATA[x.x.x.x]]>");
    assert_eq!(
        extract_xml_values(&redacted, "dns"),
        vec!["x.x.x.x".to_string(), "x.x.x.x".to_string(), "x.x.x.x".to_string()]
    );
    assert_eq!(extract_xml_value(&redacted, "x"), Some("k".to_string()));
}

#[test]
fn anonymize_xml_scrubs_known_fields() {
    let xml = "<serial_number>ABC123</serial_number>\
               <hostname><![CDATA[MYNAS]]></hostname>\
               <server_name><![CDATA[MYNAS]]></server_name>\
               <eth_ip1>192.168.1.50</eth_ip1>\
               <dns1>192.168.1.1</dns1>\
               <DNS_LIST><![CDATA[10.10.30.1]]></DNS_LIST>";
    let result = anonymize_xml(xml);
    assert!(!result.contains("ABC123"));
    assert!(!result.contains("MYNAS"));
    assert!(!result.contains("192.168.1.50"));
    assert!(!result.contains("192.168.1.1"));
    assert!(!result.contains("10.10.30.1"));
    assert!(result.contains("REDACTED"));
    assert!(result.contains("x.x.x.x"));
}

#[test]
fn anonymize_xml_exact_output() {
    let xml = "<serial_number>S</serial_number><eth_ip4>1.1.1.1</eth_ip4><model>M</model>";
    assert_eq!(
        anonymize_xml(xml),
        "<serial_number>REDACTED</serial_number><eth_ip4>x.x.x.x</eth_ip4><model>M</model>"
    );
}

#[test]
fn extract_xml_values_in_order() {
    let body = "<d>1</d><x/><d><![CDATA[2]]></d><d>3";
    assert_eq!(extract_xml_values(body, "d"), vec!["1".to_string(), "2".to_string()]);
}

//! Network adapters and DNS servers from the sysinfo document.
use vstd::prelude::*;

use crate::text::{decimal, parse_trimmed_u64, parse_unsigned, push_decimal, trim, trim_string};
use crate::xml::{extract_xml_value, extract_xml_values, xml_value, xml_values};

verus! {

broadcast use vstd::string::group_string_axioms;

/// One network adapter as the NAS reports it.
#[derive(Debug, Clone)]
pub struct NicInfo {
    pub name: String,
    pub display_name: String,
    pub ip: Option<String>,
    pub mask: Option<String>,
    pub mac: Option<String>,
    pub status: String,
    pub speed_mbps: Option<u64>,
    pub mode: Option<String>,
    pub rx_packets: Option<u64>,
    pub tx_packets: Option<u64>,
    pub err_packets: Option<u64>,
}

/// The model of a [`NicInfo`], texts as character sequences.
pub struct NicInfoView {
    pub name: Seq<char>,
    pub display_name: Seq<char>,
    pub ip: Option<Seq<char>>,
    pub mask: Option<Seq<char>>,
    pub mac: Option<Seq<char>>,
    pub status: Seq<char>,
    pub speed_mbps: Option<u64>,
    pub mode: Option<Seq<char>>,
    pub rx_packets: Option<u64>,
    pub tx_packets: Option<u64>,
    pub err_packets: Option<u64>,
}

impl View for NicInfo {
    type V = NicInfoView;

    open spec fn view(&self) -> NicInfoView {
        NicInfoView {
            name: self.name@,
            display_name: self.display_name@,
            ip: self.ip.deep_view(),
            mask: self.mask.deep_view(),
            mac: self.mac.deep_view(),
            status: self.status@,
            speed_mbps: self.speed_mbps,
            mode: self.mode.deep_view(),
            rx_packets: self.rx_packets,
            tx_packets: self.tx_packets,
            err_packets: self.err_packets,
        }
    }
}

/// The value of `tag`, white space trimmed, read as a `u64`.
pub open spec fn u64_value(body: Seq<char>, tag: Seq<char>) -> Option<u64> {
    match xml_value(body, tag) {
        None => None,
        Some(v) => match parse_unsigned(trim(v), u64::MAX as int) {
            Some(n) => Some(n as u64),
            None => None,
        },
    }
}

/// The name of the field `prefix` for adapter `i`, such as `eth_ip2`.
pub open spec fn field(prefix: Seq<char>, i: nat) -> Seq<char> {
    prefix + decimal(i)
}

/// The number of adapters the document announces (`0` when it does not).
pub open spec fn nic_count(body: Seq<char>) -> nat {
    match u64_value(body, "nic_cnt"@) {
        Some(n) => (n as usize) as nat,
        None => 0,
    }
}

/// Adapter `i` (counting from 1) of the document.
pub open spec fn nic_at(body: Seq<char>, i: nat) -> NicInfoView {
    NicInfoView {
        name: match xml_value(body, field("ifname"@, i)) {
            Some(v) => v,
            None => "eth"@ + decimal((i - 1) as nat),
        },
        display_name: match xml_value(body, field("dname"@, i)) {
            Some(v) => v,
            None => "Adapter "@ + decimal(i),
        },
        ip: xml_value(body, field("eth_ip"@, i)),
        mask: xml_value(body, field("eth_mask"@, i)),
        mac: xml_value(body, field("eth_mac"@, i)),
        status: match u64_value(body, field("eth_status"@, i)) {
            Some(1) => "up"@,
            Some(0) => "down"@,
            _ => "unknown"@,
        },
        speed_mbps: u64_value(body, field("eth_max_speed"@, i)),
        mode: xml_value(body, field("eth_usage"@, i)),
        rx_packets: u64_value(body, field("rx_packet"@, i)),
        tx_packets: u64_value(body, field("tx_packet"@, i)),
        err_packets: u64_value(body, field("err_packet"@, i)),
    }
}

/// The value of `tag` in `body`, trimmed and read as an unsigned integer.
pub fn parse_u64(body: &str, tag: &str) -> (res: Option<u64>)
    ensures
        res == u64_value(body@, tag@),
{
    match extract_xml_value(body, tag) {
        None => None,
        Some(v) => parse_trimmed_u64(v.as_str()),
    }
}

/// `prefix` followed by the decimal digits of `i`.
fn field_name(prefix: &str, i: u64) -> (res: String)
    ensures
        res@ == field(prefix@, i as nat),
{
    let mut s = String::from_str(prefix);
    push_decimal(&mut s, i);
    s
}

/// Adapter `i` (counting from 1) of the sysinfo document.
fn parse_nic(body: &str, i: u64) -> (res: NicInfo)
    requires
        i >= 1,
    ensures
        res@ == nic_at(body@, i as nat),
{
    let name = match extract_xml_value(body, field_name("ifname", i).as_str()) {
        Some(v) => v,
        None => field_name("eth", i - 1),
    };
    let display_name = match extract_xml_value(body, field_name("dname", i).as_str()) {
        Some(v) => v,
        None => field_name("Adapter ", i),
    };
    let ip = extract_xml_value(body, field_name("eth_ip", i).as_str());
    let mask = extract_xml_value(body, field_name("eth_mask", i).as_str());
    let mac = extract_xml_value(body, field_name("eth_mac", i).as_str());
    let status = match parse_u64(body, field_name("eth_status", i).as_str()) {
        Some(1) => String::from_str("up"),
        Some(0) => String::from_str("down"),
        _ => String::from_str("unknown"),
    };
    let speed_mbps = parse_u64(body, field_name("eth_max_speed", i).as_str());
    let mode = extract_xml_value(body, field_name("eth_usage", i).as_str());
    let rx_packets = parse_u64(body, field_name("rx_packet", i).as_str());
    let tx_packets = parse_u64(body, field_name("tx_packet", i).as_str());
    let err_packets = parse_u64(body, field_name("err_packet", i).as_str());
    NicInfo {
        name,
        display_name,
        ip,
        mask,
        mac,
        status,
        speed_mbps,
        mode,
        rx_packets,
        tx_packets,
        err_packets,
    }
}

/// The adapters of the sysinfo document: `nic_cnt` of them, numbered from 1.
pub fn parse_nics(body: &str) -> (res: Vec<NicInfo>)
    ensures
        res.len() == nic_count(body@),
        forall|k: int| 0 <= k < res.len() ==> #[trigger] res[k]@ == nic_at(body@, (k + 1) as nat),
{
    let count = match parse_u64(body, "nic_cnt") {
        Some(n) => n as usize,
        None => 0,
    };
    let mut nics: Vec<NicInfo> = Vec::new();
    let mut i: usize = 0;
    while i < count
        invariant
            i <= count,
            count == nic_count(body@),
            nics.len() == i,
            forall|k: int| 0 <= k < i ==> #[trigger] nics[k]@ == nic_at(body@, (k + 1) as nat),
        decreases count - i,
    {
        let nic = parse_nic(body, (i + 1) as u64);
        nics.push(nic);
        i = i + 1;
    }
    nics
}

/// The trimmed, non-empty texts of `vals`, in order.
pub open spec fn non_empty_trimmed(vals: Seq<Seq<char>>) -> Seq<Seq<char>>
    decreases vals.len(),
{
    if vals.len() == 0 {
        Seq::empty()
    } else {
        let rest = non_empty_trimmed(vals.drop_last());
        let t = trim(vals.last());
        if t.len() == 0 {
            rest
        } else {
            rest.push(t)
        }
    }
}

/// The DNS servers of the document: every `DNS_LIST` value, trimmed, empty ones left out.
pub open spec fn dns_servers(body: Seq<char>) -> Seq<Seq<char>> {
    non_empty_trimmed(xml_values(body, "DNS_LIST"@))
}

/// The DNS servers listed in the sysinfo document.
pub fn parse_dns(body: &str) -> (res: Vec<String>)
    ensures
        res.deep_view() == dns_servers(body@),
{
    let vals = extract_xml_values(body, "DNS_LIST");
    let mut res: Vec<String> = Vec::new();
    let mut k: usize = 0;
    while k < vals.len()
        invariant
            k <= vals.len(),
            vals.deep_view() == xml_values(body@, "DNS_LIST"@),
            res.deep_view() == non_empty_trimmed(vals.deep_view().take(k as int)),
        decreases vals.len() - k,
    {
        let t = trim_string(vals[k].as_str());
        let ghost before = res.deep_view();
        assert(vals.deep_view().take(k + 1).drop_last() == vals.deep_view().take(k as int));
        if !t.as_str().is_empty() {
            res.push(t);
            assert(res.deep_view() == before.push(t@));
        }
        k = k + 1;
    }
    assert(vals.deep_view().take(vals.len() as int) == vals.deep_view());
    res
}

/// The lines of an adapter's table: interface and status, then the
/// address fields that are known, the speed in Mbps, the mode, and the
/// packet counters when both of them are known.
pub open spec fn nic_pairs_spec(n: NicInfoView) -> Seq<(Seq<char>, Seq<char>)> {
    seq![("interface"@, n.name), ("status"@, n.status)] + opt_entry("ip"@, n.ip) + opt_entry("mask"@, n.mask)
        + opt_entry("mac"@, n.mac) + opt_entry(
        "speed"@,
        match n.speed_mbps {
            Some(s) => Some(decimal(s as nat) + " Mbps"@),
            None => None,
        },
    ) + opt_entry("mode"@, n.mode) + match (n.rx_packets, n.tx_packets) {
        (Some(rx), Some(tx)) => seq![
            ("rx_packets"@, decimal(rx as nat)),
            ("tx_packets"@, decimal(tx as nat)),
        ],
        _ => Seq::empty(),
    }
}

/// `[(key, v)]` when there is a value, nothing otherwise.
pub open spec fn opt_entry(key: Seq<char>, v: Option<Seq<char>>) -> Seq<(Seq<char>, Seq<char>)> {
    match v {
        Some(x) => seq![(key, x)],
        None => Seq::empty(),
    }
}

/// Appends `(key, v)` when there is a value.
fn push_opt(pairs: &mut Vec<(String, String)>, key: &str, v: &Option<String>)
    ensures
        final(pairs).deep_view() == old(pairs).deep_view() + opt_entry(key@, v.deep_view()),
{
    let ghost before = pairs.deep_view();
    match v {
        Some(x) => {
            pairs.push((String::from_str(key), x.clone()));
            assert(pairs.deep_view() == before.push((key@, x@)));
        },
        None => {
            assert(before + Seq::<(Seq<char>, Seq<char>)>::empty() == before);
        },
    }
}

/// The decimal text of `n`.
fn decimal_string(n: u64) -> (res: String)
    ensures
        res@ == decimal(n as nat),
{
    let mut s = String::new();
    push_decimal(&mut s, n);
    s
}

/// The key/value lines of an adapter's table.
pub fn nic_pairs(nic: &NicInfo) -> (res: Vec<(String, String)>)
    ensures
        res.deep_view() == nic_pairs_spec(nic@),
{
    let mut pairs: Vec<(String, String)> = Vec::new();
    pairs.push((String::from_str("interface"), nic.name.clone()));
    pairs.push((String::from_str("status"), nic.status.clone()));
    assert(pairs.deep_view() == seq![("interface"@, nic@.name), ("status"@, nic@.status)]);
    push_opt(&mut pairs, "ip", &nic.ip);
    push_opt(&mut pairs, "mask", &nic.mask);
    push_opt(&mut pairs, "mac", &nic.mac);
    let speed = match nic.speed_mbps {
        Some(s) => {
            let mut t = decimal_string(s);
            t.append(" Mbps");
            Some(t)
        },
        None => None,
    };
    assert(speed.deep_view() == match nic@.speed_mbps {
        Some(s) => Some(decimal(s as nat) + " Mbps"@),
        None => None,
    });
    push_opt(&mut pairs, "speed", &speed);
    push_opt(&mut pairs, "mode", &nic.mode);
    let ghost before = pairs.deep_view();
    match (nic.rx_packets, nic.tx_packets) {
        (Some(rx), Some(tx)) => {
            pairs.push((String::from_str("rx_packets"), decimal_string(rx)));
            pairs.push((String::from_str("tx_packets"), decimal_string(tx)));
            assert(pairs.deep_view() == before + seq![
                ("rx_packets"@, decimal(rx as nat)),
                ("tx_packets"@, decimal(tx as nat)),
            ]);
        },
        _ => {
            assert(before + Seq::<(Seq<char>, Seq<char>)>::empty() == before);
        },
    }
    assert(pairs.deep_view() == nic_pairs_spec(nic@));
    pairs
}

/// Each counter and figure of adapter `i` is the number written in its own
/// element, `rx_packet{i}`, `tx_packet{i}`, `err_packet{i}` and
/// `eth_max_speed{i}` (white space around it ignored); the addresses come
/// from `eth_ip{i}`, `eth_mask{i}` and `eth_mac{i}`, the mode from
/// `eth_usage{i}`.
pub proof fn law_adapter_fields_come_from_their_elements(body: Seq<char>, i: nat)
    ensures
        nic_at(body, i).rx_packets == match xml_value(body, "rx_packet"@ + decimal(i)) {
            None => None,
            Some(v) => match parse_unsigned(trim(v), u64::MAX as int) {
                Some(n) => Some(n as u64),
                None => None,
            },
        },
        nic_at(body, i).tx_packets == match xml_value(body, "tx_packet"@ + decimal(i)) {
            None => None,
            Some(v) => match parse_unsigned(trim(v), u64::MAX as int) {
                Some(n) => Some(n as u64),
                None => None,
            },
        },
        nic_at(body, i).err_packets == match xml_value(body, "err_packet"@ + decimal(i)) {
            None => None,
            Some(v) => match parse_unsigned(trim(v), u64::MAX as int) {
                Some(n) => Some(n as u64),
                None => None,
            },
        },
        nic_at(body, i).speed_mbps == match xml_value(body, "eth_max_speed"@ + decimal(i)) {
            None => None,
            Some(v) => match parse_unsigned(trim(v), u64::MAX as int) {
                Some(n) => Some(n as u64),
                None => None,
            },
        },
        nic_at(body, i).ip == xml_value(body, "eth_ip"@ + decimal(i)),
        nic_at(body, i).mask == xml_value(body, "eth_mask"@ + decimal(i)),
        nic_at(body, i).mac == xml_value(body, "eth_mac"@ + decimal(i)),
        nic_at(body, i).mode == xml_value(body, "eth_usage"@ + decimal(i)),
        nic_at(body, i).name == match xml_value(body, "ifname"@ + decimal(i)) {
            Some(v) => v,
            None => "eth"@ + decimal((i - 1) as nat),
        },
        nic_at(body, i).display_name == match xml_value(body, "dname"@ + decimal(i)) {
            Some(v) => v,
            None => "Adapter "@ + decimal(i),
        },
        nic_at(body, i).status == match match xml_value(body, "eth_status"@ + decimal(i)) {
            None => None::<u64>,
            Some(v) => match parse_unsigned(trim(v), u64::MAX as int) {
                Some(n) => Some(n as u64),
                None => None,
            },
        } {
            Some(1) => "up"@,
            Some(0) => "down"@,
            _ => "unknown"@,
        },
{
}

} // verus!

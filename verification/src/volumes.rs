//! Storage volumes from the disk manager and installed disks from sysinfo.
use vstd::prelude::*;

use crate::network::field;
use crate::text::{
    chars_of, decimal, find_chars, find_from, lemma_find_from, parse_trimmed_u64, parse_trimmed_usize, parse_unsigned,
    push_decimal, str_eq, string_from_range, trim, trim_string,
};
use crate::xml::{extract_xml_value_or_empty, xml_value, xml_value_or_empty};

verus! {

broadcast use vstd::string::group_string_axioms;

/// The label of a QNAP `vol_status` code, white space around it ignored.
pub open spec fn vol_status_label_spec(code: Seq<char>) -> Seq<char> {
    let c = trim(code);
    if c == "0"@ {
        "ready"@
    } else if c == "-1"@ {
        "not ready"@
    } else if c == "-4"@ {
        "error"@
    } else if c == "-5"@ {
        "degraded"@
    } else if c == "-6"@ {
        "not active"@
    } else if c == "-7"@ {
        "ready"@
    } else {
        "unknown"@
    }
}

/// The label of a QNAP `vol_status` code, from the QTS firmware source.
pub fn vol_status_label(code: &str) -> (res: &'static str)
    ensures
        res@ == vol_status_label_spec(code@),
{
    let t = trim_string(code);
    let c = t.as_str();
    if str_eq(c, "0") {
        "ready"
    } else if str_eq(c, "-1") {
        "not ready"
    } else if str_eq(c, "-4") {
        "error"
    } else if str_eq(c, "-5") {
        "degraded"
    } else if str_eq(c, "-6") {
        "not active"
    } else if str_eq(c, "-7") {
        "ready"
    } else {
        "unknown"
    }
}

/// `<row>`
pub open spec fn row_open() -> Seq<char> {
    seq!['<', 'r', 'o', 'w', '>']
}

/// `</row>`
pub open spec fn row_close() -> Seq<char> {
    seq!['<', '/', 'r', 'o', 'w', '>']
}

/// The `<row>` blocks of `s[pos..]`: the text after each `<row>` up to the
/// next `</row>`, or to the end when none follows. The search for the next
/// block resumes at that `</row>`.
pub open spec fn row_blocks_from(s: Seq<char>, pos: nat) -> Seq<Seq<char>>
    decreases s.len() - pos,
{
    match find_from(s, row_open(), pos) {
        None => Seq::empty(),
        Some(i) => {
            proof {
                lemma_find_from(s, row_open(), pos);
            }
            let a = i + 5;
            let e = match find_from(s, row_close(), a) {
                Some(e) => e,
                None => s.len(),
            };
            proof {
                lemma_find_from(s, row_close(), a);
            }
            seq![s.subrange(a as int, e as int)] + row_blocks_from(s, e)
        },
    }
}

/// The `<row>` blocks of `s`.
pub open spec fn row_blocks(s: Seq<char>) -> Seq<Seq<char>> {
    row_blocks_from(s, 0)
}

/// The `<row>` blocks of a volume list, in order.
pub fn split_rows(body: &str) -> (res: Vec<String>)
    ensures
        res.deep_view() == row_blocks(body@),
{
    let b = chars_of(body);
    let mut open: Vec<char> = Vec::new();
    open.push('<');
    open.push('r');
    open.push('o');
    open.push('w');
    open.push('>');
    let mut close: Vec<char> = Vec::new();
    close.push('<');
    close.push('/');
    close.push('r');
    close.push('o');
    close.push('w');
    close.push('>');
    assert(open@ == row_open());
    assert(close@ == row_close());
    let mut res: Vec<String> = Vec::new();
    let mut pos: usize = 0;
    loop
        invariant
            b@ == body@,
            pos <= b.len(),
            open@ == row_open(),
            close@ == row_close(),
            res.deep_view() + row_blocks_from(b@, pos as nat) == row_blocks(body@),
        decreases b.len() - pos,
    {
        match find_chars(&b, &open, pos) {
            None => {
                assert(res.deep_view() + Seq::<Seq<char>>::empty() == res.deep_view());
                return res;
            },
            Some(i) => {
                proof {
                    lemma_find_from(b@, open@, pos as nat);
                    assert(b@.len() == b.len());
                }
                let a = i + 5;
                let e = match find_chars(&b, &close, a) {
                    Some(e) => e,
                    None => b.len(),
                };
                proof {
                    lemma_find_from(b@, close@, a as nat);
                }
                let block = string_from_range(&b, a, e);
                let ghost before = res.deep_view();
                let ghost old_pos = pos;
                res.push(block);
                assert(res.deep_view() == before.push(block@));
                pos = e;
                assert(row_blocks_from(b@, old_pos as nat) == seq![block@] + row_blocks_from(
                    b@,
                    pos as nat,
                ));
                assert(res.deep_view() + row_blocks_from(b@, pos as nat) == before
                    + row_blocks_from(b@, old_pos as nat));
            },
        }
    }
}

/// One storage volume of the disk manager's list.
#[derive(Debug, Clone)]
pub struct VolumeRecord {
    pub label: String,
    pub status: String,
    /// The raw `vol_status` code, as the NAS sent it.
    pub status_code: String,
    pub pool: String,
    /// The `poolID` as a number, when it is one.
    pub pool_id: Option<u64>,
    pub volume_type: String,
}

/// The model of a [`VolumeRecord`].
pub struct VolumeRecordView {
    pub label: Seq<char>,
    pub status: Seq<char>,
    pub status_code: Seq<char>,
    pub pool: Seq<char>,
    pub pool_id: Option<u64>,
    pub volume_type: Seq<char>,
}

impl View for VolumeRecord {
    type V = VolumeRecordView;

    open spec fn view(&self) -> VolumeRecordView {
        VolumeRecordView {
            label: self.label@,
            status: self.status@,
            status_code: self.status_code@,
            pool: self.pool@,
            pool_id: self.pool_id,
            volume_type: self.volume_type@,
        }
    }
}

/// A decimal number, white space around it ignored, when it fits a `u64`.
pub open spec fn u64_of(text: Seq<char>) -> Option<u64> {
    match parse_unsigned(trim(text), u64::MAX as int) {
        Some(n) => Some(n as u64),
        None => None,
    }
}

/// The volume a `<row>` block describes; absent fields read as empty.
pub open spec fn volume_of(block: Seq<char>) -> VolumeRecordView {
    VolumeRecordView {
        label: xml_value_or_empty(block, "vol_label"@),
        status: vol_status_label_spec(xml_value_or_empty(block, "vol_status"@)),
        status_code: xml_value_or_empty(block, "vol_status"@),
        pool: xml_value_or_empty(block, "poolID"@),
        pool_id: u64_of(xml_value_or_empty(block, "poolID"@)),
        volume_type: xml_value_or_empty(block, "lv_type"@),
    }
}

/// The volume a `<row>` block describes.
pub fn parse_volume_row(block: &str) -> (res: VolumeRecord)
    ensures
        res@ == volume_of(block@),
{
    let status_code = extract_xml_value_or_empty(block, "vol_status");
    let pool = extract_xml_value_or_empty(block, "poolID");
    let pool_id = parse_trimmed_u64(pool.as_str());
    VolumeRecord {
        label: extract_xml_value_or_empty(block, "vol_label"),
        status: String::from_str(vol_status_label(status_code.as_str())),
        status_code,
        pool,
        pool_id,
        volume_type: extract_xml_value_or_empty(block, "lv_type"),
    }
}

/// The volumes of a disk manager volume list, one per `<row>` block.
pub fn parse_volumes(body: &str) -> (res: Vec<VolumeRecord>)
    ensures
        res.len() == row_blocks(body@).len(),
        forall|k: int| 0 <= k < res.len() ==> #[trigger] res[k]@ == volume_of(row_blocks(body@)[k]),
{
    let rows = split_rows(body);
    let mut res: Vec<VolumeRecord> = Vec::new();
    let mut k: usize = 0;
    while k < rows.len()
        invariant
            k <= rows.len(),
            rows.deep_view() == row_blocks(body@),
            res.len() == k,
            forall|m: int| 0 <= m < k ==> #[trigger] res[m]@ == volume_of(row_blocks(body@)[m]),
        decreases rows.len() - k,
    {
        assert(rows.deep_view()[k as int] == rows[k as int]@);
        res.push(parse_volume_row(rows[k].as_str()));
        k = k + 1;
    }
    res
}

/// One installed disk.
#[derive(Debug, Clone)]
pub struct DiskInfo {
    pub slot: usize,
    pub model: String,
    pub kind: String,
    /// The temperature in °C, when the NAS reports one (a reading of `0`
    /// counts as none).
    pub temp_c: Option<u64>,
}

/// The model of a [`DiskInfo`].
pub struct DiskInfoView {
    pub slot: usize,
    pub model: Seq<char>,
    pub kind: Seq<char>,
    pub temp_c: Option<u64>,
}

impl View for DiskInfo {
    type V = DiskInfoView;

    open spec fn view(&self) -> DiskInfoView {
        DiskInfoView {
            slot: self.slot,
            model: self.model@,
            kind: self.kind@,
            temp_c: self.temp_c,
        }
    }
}

/// The number of disk slots the sysinfo document announces (`0` when it does not).
pub open spec fn disk_count(sys: Seq<char>) -> nat {
    match xml_value(sys, "disk_num"@) {
        None => 0,
        Some(v) => match parse_unsigned(trim(v), usize::MAX as int) {
            Some(n) => n as nat,
            None => 0,
        },
    }
}

/// The disk in slot `i`, when one is installed there (`disk_installed{i}` is `1`).
pub open spec fn disk_at(sys: Seq<char>, i: usize) -> Option<DiskInfoView> {
    if xml_value_or_empty(sys, field("disk_installed"@, i as nat)) != "1"@ {
        None
    } else {
        let temp = xml_value_or_empty(sys, field("tempc"@, i as nat));
        Some(
            DiskInfoView {
                slot: i,
                model: xml_value_or_empty(sys, field("hd_pd_alias"@, i as nat)),
                kind: if xml_value_or_empty(sys, field("hd_is_ssd"@, i as nat)) == "1"@ {
                    "SSD"@
                } else {
                    "HDD"@
                },
                temp_c: if temp.len() != 0 && temp != "0"@ {
                    u64_of(temp)
                } else {
                    None
                },
            },
        )
    }
}

/// The installed disks among slots `1..=n`, in slot order.
pub open spec fn disks_upto(sys: Seq<char>, n: nat) -> Seq<DiskInfoView>
    decreases n,
{
    if n == 0 {
        Seq::empty()
    } else {
        let rest = disks_upto(sys, (n - 1) as nat);
        match disk_at(sys, n as usize) {
            Some(d) => rest.push(d),
            None => rest,
        }
    }
}

/// The model of a list of disks.
pub open spec fn disks_view(disks: Seq<DiskInfo>) -> Seq<DiskInfoView> {
    disks.map_values(|d: DiskInfo| d@)
}

/// `prefix` followed by the decimal digits of `i`.
fn slot_field(prefix: &str, i: usize) -> (res: String)
    ensures
        res@ == field(prefix@, i as nat),
{
    let mut s = String::from_str(prefix);
    push_decimal(&mut s, i as u64);
    s
}

/// The disk in slot `i` of the sysinfo document, when one is installed.
fn parse_disk(sys: &str, i: usize) -> (res: Option<DiskInfo>)
    ensures
        match res {
            Some(d) => disk_at(sys@, i) == Some(d@),
            None => disk_at(sys@, i) is None,
        },
{
    let installed = extract_xml_value_or_empty(sys, slot_field("disk_installed", i).as_str());
    if !str_eq(installed.as_str(), "1") {
        return None;
    }
    let alias = extract_xml_value_or_empty(sys, slot_field("hd_pd_alias", i).as_str());
    let temp = extract_xml_value_or_empty(sys, slot_field("tempc", i).as_str());
    let is_ssd = extract_xml_value_or_empty(sys, slot_field("hd_is_ssd", i).as_str());
    let kind = if str_eq(is_ssd.as_str(), "1") {
        String::from_str("SSD")
    } else {
        String::from_str("HDD")
    };
    let temp_c = if !temp.as_str().is_empty() && !str_eq(temp.as_str(), "0") {
        parse_trimmed_u64(temp.as_str())
    } else {
        None
    };
    Some(DiskInfo { slot: i, model: alias, kind, temp_c })
}

/// The installed disks of the sysinfo document: slots `1..=disk_num` whose
/// `disk_installed` flag is `1`.
pub fn parse_disks(sys: &str) -> (res: Vec<DiskInfo>)
    ensures
        disks_view(res@) == disks_upto(sys@, disk_count(sys@)),
{
    let count: usize = match crate::xml::extract_xml_value(sys, "disk_num") {
        None => 0,
        Some(v) => match parse_trimmed_usize(v.as_str()) {
            Some(n) => n,
            None => 0,
        },
    };
    let mut disks: Vec<DiskInfo> = Vec::new();
    let mut i: usize = 0;
    while i < count
        invariant
            i <= count,
            count == disk_count(sys@),
            disks_view(disks@) == disks_upto(sys@, i as nat),
        decreases count - i,
    {
        i = i + 1;
        let ghost before = disks@;
        match parse_disk(sys, i) {
            Some(d) => {
                disks.push(d);
                assert(disks_view(disks@) == disks_view(before).push(d@));
            },
            None => {},
        }
    }
    disks
}

/// The disk in slot `i` is there exactly when `disk_installed{i}` reads `1`;
/// its model is `hd_pd_alias{i}`, it is an SSD exactly when `hd_is_ssd{i}`
/// reads `1`, and its temperature is the number in `tempc{i}` whenever that
/// text is neither empty nor `0`, whatever kind of disk it is.
pub proof fn law_disk_fields_come_from_their_elements(sys: Seq<char>, i: usize)
    ensures
        disk_at(sys, i) is Some <==> xml_value_or_empty(sys, "disk_installed"@ + decimal(i as nat))
            == "1"@,
        disk_at(sys, i) matches Some(d) ==> {
            let temp = xml_value_or_empty(sys, "tempc"@ + decimal(i as nat));
            &&& d.slot == i
            &&& d.model == xml_value_or_empty(sys, "hd_pd_alias"@ + decimal(i as nat))
            &&& (d.kind == "SSD"@ <==> xml_value_or_empty(sys, "hd_is_ssd"@ + decimal(i as nat))
                == "1"@)
            &&& (temp.len() != 0 && temp != "0"@) ==> d.temp_c == match parse_unsigned(
                trim(temp),
                u64::MAX as int,
            ) {
                Some(n) => Some(n as u64),
                None => None,
            }
            &&& (temp.len() == 0 || temp == "0"@) ==> d.temp_c is None
        },
{
    reveal_strlit("SSD");
    reveal_strlit("HDD");
    assert("HDD"@[0] != "SSD"@[0]);
}

} // verus!

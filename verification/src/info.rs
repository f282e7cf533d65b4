//! System information: model, firmware, host name, uptime.
use vstd::prelude::*;

use crate::network::{parse_u64, u64_value};
use crate::xml::{extract_xml_value, xml_value};
use crate::text::{
    all_digits, decimal, is_digit, law_parse_decimal_roundtrip, lemma_decimal_digits,
    lemma_find_from_none, lemma_find_from_unique, matches_at, push_char, push_decimal, chars_of,
    find_chars, find_from, lemma_find_from, lemma_find_in_suffix, parse_u64_range,
    parse_unsigned,
};

verus! {

broadcast use vstd::string::group_string_axioms;

/// `s` up to the first `sep`, and what follows that `sep` when there is one.
pub open spec fn split_once(s: Seq<char>, sep: char) -> (Seq<char>, Option<Seq<char>>) {
    match find_from(s, seq![sep], 0) {
        None => (s, None),
        Some(i) => (s.take(i as int), Some(s.skip(i + 1 as int))),
    }
}

/// The first two `.`-separated segments of a version that read as `u32`
/// numbers; segments that do not read as numbers are skipped.
pub open spec fn version_numbers(version: Seq<char>) -> Seq<int> {
    let (first, rest) = split_once(version, '.');
    let second: Option<Seq<char>> = match rest {
        None => None,
        Some(r) => Some(split_once(r, '.').0),
    };
    let n0: Seq<int> = match parse_unsigned(first, u32::MAX as int) {
        Some(n) => seq![n],
        None => Seq::empty(),
    };
    let n1: Seq<int> = match second {
        None => Seq::empty(),
        Some(s) => match parse_unsigned(s, u32::MAX as int) {
            Some(n) => seq![n],
            None => Seq::empty(),
        },
    };
    n0 + n1
}

/// The note shown for firmware older than QTS 4.3.
pub open spec fn compat_note_text(version: Seq<char>) -> Seq<char> {
    "firmware "@ + version
        + " is older than QTS 4.3 — some commands may not work correctly\n  Run `qnap dump ./debug/` and open a GitHub issue if you encounter problems."@
}

/// A note for firmware outside the tested range: major version below 4, or
/// 4 with a minor version below 3. A major version of 0, which is also what
/// an unreadable version gives, gets no note.
pub open spec fn compat_note(version: Seq<char>) -> Option<Seq<char>> {
    let parts = version_numbers(version);
    let major = if parts.len() > 0 {
        parts[0]
    } else {
        0
    };
    let minor = if parts.len() > 1 {
        parts[1]
    } else {
        0
    };
    if major == 0 {
        None
    } else if major < 4 || (major == 4 && minor < 3) {
        Some(compat_note_text(version))
    } else {
        None
    }
}

/// The end of the segment of `v` that starts at `from`: the next `.` or the end.
fn segment_end(v: &Vec<char>, from: usize) -> (res: Option<usize>)
    requires
        from <= v.len(),
    ensures
        match res {
            Some(i) => find_from(v@, seq!['.'], from as nat) == Some(i as nat),
            None => find_from(v@, seq!['.'], from as nat) is None,
        },
{
    let mut dot: Vec<char> = Vec::new();
    dot.push('.');
    assert(dot@ == seq!['.']);
    find_chars(v, &dot, from)
}

/// Returns a note when the firmware version is outside the tested range.
pub fn firmware_compat_note(version: &str) -> (res: Option<String>)
    ensures
        res.deep_view() == compat_note(version@),
{
    let v = chars_of(version);
    let ghost s = v@;
    // first segment
    let end0 = segment_end(&v, 0);
    let e0 = match end0 {
        Some(i) => i,
        None => v.len(),
    };
    proof {
        lemma_find_from(s, seq!['.'], 0);
        assert(s.subrange(0, e0 as int) == split_once(s, '.').0);
    }
    let p0 = parse_u64_range(&v, 0, e0);
    let n0: Option<u64> = match p0 {
        Some(n) => if n <= 0xffff_ffff {
            Some(n)
        } else {
            None
        },
        None => None,
    };
    // second segment
    let mut n1: Option<u64> = None;
    if let Some(i) = end0 {
        let start = i + 1;
        let end1 = segment_end(&v, start);
        let e1 = match end1 {
            Some(j) => j,
            None => v.len(),
        };
        proof {
            let r = s.skip(i + 1);
            lemma_find_in_suffix(s, seq!['.'], start as nat);
            lemma_find_from(s, seq!['.'], start as nat);
            lemma_find_from(r, seq!['.'], 0);
            assert(s.subrange(start as int, e1 as int) == split_once(r, '.').0);
        }
        let p1 = parse_u64_range(&v, start, e1);
        n1 = match p1 {
            Some(n) => if n <= 0xffff_ffff {
                Some(n)
            } else {
                None
            },
            None => None,
        };
    }
    let (major, minor): (u64, u64) = match (n0, n1) {
        (Some(a), Some(b)) => (a, b),
        (Some(a), None) => (a, 0),
        (None, Some(b)) => (b, 0),
        (None, None) => (0, 0),
    };
    assert(major == (if version_numbers(s).len() > 0 {
        version_numbers(s)[0]
    } else {
        0
    }));
    assert(minor == (if version_numbers(s).len() > 1 {
        version_numbers(s)[1]
    } else {
        0
    }));
    if major == 0 {
        return None;
    }
    if major < 4 || (major == 4 && minor < 3) {
        let mut note = String::from_str("firmware ");
        note.append(version);
        note.append(
            " is older than QTS 4.3 — some commands may not work correctly\n  Run `qnap dump ./debug/` and open a GitHub issue if you encounter problems.",
        );
        return Some(note);
    }
    None
}

/// How long the NAS has been up.
#[derive(Debug, Clone, Copy, PartialEq, Eq, Structural)]
pub struct Uptime {
    pub days: u64,
    pub hours: u64,
    pub minutes: u64,
    pub seconds: u64,
}

/// `n`, or `0` when there is no value.
pub open spec fn or_zero(n: Option<u64>) -> u64 {
    match n {
        Some(v) => v,
        None => 0,
    }
}

/// The uptime the sysinfo document reports: `uptime_day` must read as a
/// number; hours, minutes and seconds count as 0 when absent or unreadable.
pub open spec fn uptime_of(body: Seq<char>) -> Option<Uptime> {
    match u64_value(body, "uptime_day"@) {
        None => None,
        Some(days) => Some(
            Uptime {
                days,
                hours: or_zero(u64_value(body, "uptime_hour"@)),
                minutes: or_zero(u64_value(body, "uptime_min"@)),
                seconds: or_zero(u64_value(body, "uptime_sec"@)),
            },
        ),
    }
}

/// `"{days}d {hours}h {minutes}m"`
pub open spec fn uptime_display(u: Uptime) -> Seq<char> {
    decimal(u.days as nat) + seq!['d', ' '] + decimal(u.hours as nat) + seq!['h', ' '] + decimal(
        u.minutes as nat,
    ) + seq!['m']
}

/// The uptime in seconds, capped at `u64::MAX`.
pub open spec fn uptime_total_seconds(u: Uptime) -> u64 {
    let t = u.days * 86400 + u.hours * 3600 + u.minutes * 60 + u.seconds;
    if t > u64::MAX {
        u64::MAX
    } else {
        t as u64
    }
}

impl Uptime {
    /// `"{days}d {hours}h {minutes}m"`
    pub fn display(&self) -> (res: String)
        ensures
            res@ == uptime_display(*self),
    {
        let mut s = String::new();
        push_decimal(&mut s, self.days);
        push_char(&mut s, 'd');
        push_char(&mut s, ' ');
        push_decimal(&mut s, self.hours);
        push_char(&mut s, 'h');
        push_char(&mut s, ' ');
        push_decimal(&mut s, self.minutes);
        push_char(&mut s, 'm');
        s
    }

    /// The uptime in seconds, capped at `u64::MAX`.
    pub fn total_seconds(&self) -> (res: u64)
        ensures
            res == uptime_total_seconds(*self),
    {
        let d = match self.days.checked_mul(86400) {
            Some(v) => v,
            None => return u64::MAX,
        };
        let h = match self.hours.checked_mul(3600) {
            Some(v) => v,
            None => return u64::MAX,
        };
        let m = match self.minutes.checked_mul(60) {
            Some(v) => v,
            None => return u64::MAX,
        };
        let t = match d.checked_add(h) {
            Some(v) => v,
            None => return u64::MAX,
        };
        let t = match t.checked_add(m) {
            Some(v) => v,
            None => return u64::MAX,
        };
        match t.checked_add(self.seconds) {
            Some(v) => v,
            None => u64::MAX,
        }
    }
}

/// The uptime the sysinfo document reports.
pub fn parse_uptime(body: &str) -> (res: Option<Uptime>)
    ensures
        res == uptime_of(body@),
{
    let days = match parse_u64(body, "uptime_day") {
        Some(d) => d,
        None => return None,
    };
    let hours = match parse_u64(body, "uptime_hour") {
        Some(v) => v,
        None => 0,
    };
    let minutes = match parse_u64(body, "uptime_min") {
        Some(v) => v,
        None => 0,
    };
    let seconds = match parse_u64(body, "uptime_sec") {
        Some(v) => v,
        None => 0,
    };
    Some(Uptime { days, hours, minutes, seconds })
}

/// System information as the `info` command reports it.
#[derive(Debug, Clone)]
pub struct InfoOutput {
    pub model: Option<String>,
    pub hostname: Option<String>,
    pub serial: Option<String>,
    pub firmware: Option<String>,
    pub build: Option<String>,
    pub timezone: Option<String>,
    pub uptime: Option<Uptime>,
}

/// The model of an [`InfoOutput`].
pub struct InfoOutputView {
    pub model: Option<Seq<char>>,
    pub hostname: Option<Seq<char>>,
    pub serial: Option<Seq<char>>,
    pub firmware: Option<Seq<char>>,
    pub build: Option<Seq<char>>,
    pub timezone: Option<Seq<char>>,
    pub uptime: Option<Uptime>,
}

impl View for InfoOutput {
    type V = InfoOutputView;

    open spec fn view(&self) -> InfoOutputView {
        InfoOutputView {
            model: self.model.deep_view(),
            hostname: self.hostname.deep_view(),
            serial: self.serial.deep_view(),
            firmware: self.firmware.deep_view(),
            build: self.build.deep_view(),
            timezone: self.timezone.deep_view(),
            uptime: self.uptime,
        }
    }
}

/// The system information in a sysinfo document.
pub open spec fn info_of(body: Seq<char>) -> InfoOutputView {
    InfoOutputView {
        model: xml_value(body, "modelName"@),
        hostname: xml_value(body, "hostname"@),
        serial: xml_value(body, "serial_number"@),
        firmware: xml_value(body, "version"@),
        build: xml_value(body, "build"@),
        timezone: xml_value(body, "timezone"@),
        uptime: uptime_of(body),
    }
}

/// Read the system information out of a sysinfo document.
pub fn build_info(body: &str) -> (res: InfoOutput)
    ensures
        res@ == info_of(body@),
{
    InfoOutput {
        model: extract_xml_value(body, "modelName"),
        hostname: extract_xml_value(body, "hostname"),
        serial: extract_xml_value(body, "serial_number"),
        firmware: extract_xml_value(body, "version"),
        build: extract_xml_value(body, "build"),
        timezone: extract_xml_value(body, "timezone"),
        uptime: parse_uptime(body),
    }
}

/// `[(key, v)]` when there is a value, nothing otherwise.
pub open spec fn opt_pair(key: Seq<char>, v: Option<Seq<char>>) -> Seq<(Seq<char>, Seq<char>)> {
    match v {
        Some(x) => seq![(key, x)],
        None => Seq::empty(),
    }
}

/// The lines of the `info` table: the fields that have a value, in order.
pub open spec fn info_pairs_spec(info: InfoOutputView) -> Seq<(Seq<char>, Seq<char>)> {
    opt_pair("model"@, info.model) + opt_pair("hostname"@, info.hostname) + opt_pair(
        "serial"@,
        info.serial,
    ) + opt_pair("firmware"@, info.firmware) + opt_pair("build"@, info.build) + opt_pair(
        "timezone"@,
        info.timezone,
    ) + opt_pair(
        "uptime"@,
        match info.uptime {
            Some(u) => Some(uptime_display(u)),
            None => None,
        },
    )
}

/// Appends `(key, v)` when there is a value.
fn push_opt_pair(pairs: &mut Vec<(String, String)>, key: &str, v: &Option<String>)
    ensures
        final(pairs).deep_view() == old(pairs).deep_view() + opt_pair(key@, v.deep_view()),
{
    let ghost before = pairs.deep_view();
    match v {
        Some(x) => {
            pairs.push((String::from_str(key), x.clone()));
            assert(pairs.deep_view() == before + opt_pair(key@, v.deep_view()));
        },
        None => {
            assert(before + Seq::<(Seq<char>, Seq<char>)>::empty() == before);
        },
    }
}

/// The key/value lines of the `info` table.
pub fn info_pairs(info: &InfoOutput) -> (res: Vec<(String, String)>)
    ensures
        res.deep_view() == info_pairs_spec(info@),
{
    let mut pairs: Vec<(String, String)> = Vec::new();
    assert(pairs.deep_view() == Seq::<(Seq<char>, Seq<char>)>::empty());
    push_opt_pair(&mut pairs, "model", &info.model);
    push_opt_pair(&mut pairs, "hostname", &info.hostname);
    push_opt_pair(&mut pairs, "serial", &info.serial);
    push_opt_pair(&mut pairs, "firmware", &info.firmware);
    push_opt_pair(&mut pairs, "build", &info.build);
    push_opt_pair(&mut pairs, "timezone", &info.timezone);
    let up = match info.uptime {
        Some(u) => Some(u.display()),
        None => None,
    };
    push_opt_pair(&mut pairs, "uptime", &up);
    pairs
}

/// A run of digits followed by nothing or by `.`: its first segment is the digits.
proof fn lemma_split_digits(d: Seq<char>, tail: Seq<char>)
    requires
        all_digits(d),
        tail.len() == 0 || tail[0] == '.',
    ensures
        split_once(d + tail, '.').0 == d,
        tail.len() > 0 ==> split_once(d + tail, '.').1 == Some(tail.skip(1)),
{
    let s = d + tail;
    let dot = seq!['.'];
    assert forall|j: int| 0 <= j < d.len() implies !matches_at(s, dot, j) by {
        assert(is_digit(d[j]));
        assert(s[j + 0] == d[j]);
    }
    if tail.len() == 0 {
        assert(s == d);
        assert forall|j: int| 0 <= j implies !matches_at(s, dot, j) by {}
        lemma_find_from_none(s, dot, 0);
    } else {
        assert(s[d.len() as int + 0] == dot[0]);
        lemma_find_from_unique(s, dot, 0, d.len());
        assert(s.take(d.len() as int) == d);
        assert(s.skip(d.len() as int + 1) == tail.skip(1));
    }
}

/// For a version `major.minor` (possibly followed by further `.` parts),
/// the compatibility note appears exactly when the firmware is older than
/// QTS 4.3, a major version of 0 aside.
pub proof fn law_compat_note_threshold(major: nat, minor: nat, tail: Seq<char>)
    requires
        major <= u32::MAX,
        minor <= u32::MAX,
        tail.len() == 0 || tail[0] == '.',
    ensures
        compat_note(decimal(major) + seq!['.'] + decimal(minor) + tail) is Some <==> (0 < major
            && (major < 4 || (major == 4 && minor < 3))),
{
    let dm = decimal(major);
    let dn = decimal(minor);
    let rest = seq!['.'] + dn + tail;
    let v = dm + seq!['.'] + dn + tail;
    assert(v == dm + rest);
    lemma_decimal_digits(major);
    lemma_decimal_digits(minor);
    lemma_split_digits(dm, rest);
    assert(rest.skip(1) == dn + tail);
    lemma_split_digits(dn, tail);
    law_parse_decimal_roundtrip(major, u32::MAX as int);
    law_parse_decimal_roundtrip(minor, u32::MAX as int);
    assert(version_numbers(v) == seq![major as int, minor as int]);
}

/// The system information reads each field from its own element: model
/// from `modelName`, hostname from `hostname`, serial from
/// `serial_number`, firmware from `version`, build from `build` and
/// timezone from `timezone`.
pub proof fn law_info_fields_come_from_their_elements(body: Seq<char>)
    ensures
        info_of(body).model == xml_value(body, "modelName"@),
        info_of(body).hostname == xml_value(body, "hostname"@),
        info_of(body).serial == xml_value(body, "serial_number"@),
        info_of(body).firmware == xml_value(body, "version"@),
        info_of(body).build == xml_value(body, "build"@),
        info_of(body).timezone == xml_value(body, "timezone"@),
        info_of(body).uptime == uptime_of(body),
{
}

/// The number written in element `tag` of `body`, white space around it
/// ignored, when it fits a `u64`.
pub open spec fn number_in(body: Seq<char>, tag: Seq<char>) -> Option<u64> {
    match xml_value(body, tag) {
        None => None,
        Some(v) => match parse_unsigned(crate::text::trim(v), u64::MAX as int) {
            Some(n) => Some(n as u64),
            None => None,
        },
    }
}

/// The uptime is there exactly when `uptime_day` holds a number; its days,
/// hours, minutes and seconds are the numbers in `uptime_day`,
/// `uptime_hour`, `uptime_min` and `uptime_sec`, a missing one counting as
/// zero; its total is those summed in seconds, capped at `u64::MAX`.
pub proof fn law_uptime_fields_come_from_their_elements(body: Seq<char>)
    ensures
        uptime_of(body) is Some <==> number_in(body, "uptime_day"@) is Some,
        uptime_of(body) matches Some(u) ==> {
            &&& Some(u.days) == number_in(body, "uptime_day"@)
            &&& u.hours == match number_in(body, "uptime_hour"@) {
                Some(n) => n,
                None => 0,
            }
            &&& u.minutes == match number_in(body, "uptime_min"@) {
                Some(n) => n,
                None => 0,
            }
            &&& u.seconds == match number_in(body, "uptime_sec"@) {
                Some(n) => n,
                None => 0,
            }
            &&& uptime_total_seconds(u) as int == if u.days * 86400 + u.hours * 3600 + u.minutes
                * 60 + u.seconds > u64::MAX {
                u64::MAX as int
            } else {
                u.days * 86400 + u.hours * 3600 + u.minutes * 60 + u.seconds
            }
        },
{
}

} // verus!

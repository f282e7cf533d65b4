//! Reading values out of the flat XML documents that the NAS returns.
//!
//! The NAS answers with simple, non-nested tag/value documents. A value is
//! the text between the first `<tag>` and the first `</tag>` after it, with
//! an enclosing `<![CDATA[ ... ]]>` wrapper removed.
use vstd::prelude::*;

use crate::text::{
    push_char, push_range, chars_of, find_chars, find_from, lemma_find_from, lemma_find_from_none, lemma_find_from_unique, lemma_find_in_suffix, matches_at, matches_at_exec, string_from_range,
};

verus! {

broadcast use vstd::string::group_string_axioms;

/// `<tag>`
pub open spec fn open_tag(tag: Seq<char>) -> Seq<char> {
    seq!['<'] + tag + seq!['>']
}

/// `</tag>`
pub open spec fn close_tag(tag: Seq<char>) -> Seq<char> {
    seq!['<', '/'] + tag + seq!['>']
}

/// `<![CDATA[`
pub open spec fn cdata_open() -> Seq<char> {
    seq!['<', '!', '[', 'C', 'D', 'A', 'T', 'A', '[']
}

/// `]]>`
pub open spec fn cdata_close() -> Seq<char> {
    seq![']', ']', '>']
}

/// `raw` without a surrounding CDATA wrapper, when it has one.
pub open spec fn strip_cdata(raw: Seq<char>) -> Seq<char> {
    if raw.len() >= 12 && matches_at(raw, cdata_open(), 0) && matches_at(
        raw,
        cdata_close(),
        raw.len() - 3,
    ) {
        raw.subrange(9, raw.len() - 3)
    } else {
        raw
    }
}

/// Where the value of `tag` starts and ends in `body`, when it has one.
pub open spec fn value_span(body: Seq<char>, tag: Seq<char>) -> Option<(nat, nat)> {
    match find_from(body, open_tag(tag), 0) {
        None => None,
        Some(i) => {
            let start = i + open_tag(tag).len();
            match find_from(body, close_tag(tag), start) {
                None => None,
                Some(j) => Some((start, j)),
            }
        },
    }
}

/// The text of the first `tag` element of `body`, CDATA wrapper removed.
pub open spec fn xml_value(body: Seq<char>, tag: Seq<char>) -> Option<Seq<char>> {
    match value_span(body, tag) {
        None => None,
        Some((start, end)) => Some(strip_cdata(body.subrange(start as int, end as int))),
    }
}

/// The characters of `<tag>`.
pub fn open_tag_chars(tag: &str) -> (res: Vec<char>)
    ensures
        res@ == open_tag(tag@),
{
    let t = chars_of(tag);
    let mut res: Vec<char> = Vec::new();
    res.push('<');
    let mut k: usize = 0;
    while k < t.len()
        invariant
            k <= t.len(),
            res@ == seq!['<'] + t@.take(k as int),
        decreases t.len() - k,
    {
        res.push(t[k]);
        assert(t@.take(k + 1) == t@.take(k as int).push(t@[k as int]));
        k = k + 1;
    }
    res.push('>');
    assert(t@.take(t.len() as int) == t@);
    res
}

/// The characters of `</tag>`.
pub fn close_tag_chars(tag: &str) -> (res: Vec<char>)
    ensures
        res@ == close_tag(tag@),
{
    let t = chars_of(tag);
    let mut res: Vec<char> = Vec::new();
    res.push('<');
    res.push('/');
    let mut k: usize = 0;
    while k < t.len()
        invariant
            k <= t.len(),
            res@ == seq!['<', '/'] + t@.take(k as int),
        decreases t.len() - k,
    {
        res.push(t[k]);
        assert(t@.take(k + 1) == t@.take(k as int).push(t@[k as int]));
        k = k + 1;
    }
    res.push('>');
    assert(t@.take(t.len() as int) == t@);
    res
}

/// The range `[from, to)` of `v`, without a CDATA wrapper when it has one.
fn stripped_range(v: &Vec<char>, from: usize, to: usize) -> (res: String)
    requires
        from <= to <= v.len(),
    ensures
        res@ == strip_cdata(v@.subrange(from as int, to as int)),
{
    let ghost raw = v@.subrange(from as int, to as int);
    let mut cd_open: Vec<char> = Vec::new();
    cd_open.push('<');
    cd_open.push('!');
    cd_open.push('[');
    cd_open.push('C');
    cd_open.push('D');
    cd_open.push('A');
    cd_open.push('T');
    cd_open.push('A');
    cd_open.push('[');
    let mut cd_close: Vec<char> = Vec::new();
    cd_close.push(']');
    cd_close.push(']');
    cd_close.push('>');
    assert(cd_open@ == cdata_open());
    assert(cd_close@ == cdata_close());
    if to - from >= 12 && matches_at_exec(v, &cd_open, from) && matches_at_exec(
        v,
        &cd_close,
        to - 3,
    ) {
        assert(matches_at(raw, cdata_open(), 0)) by {
            assert forall|k: int| 0 <= k < 9 implies #[trigger] raw[0 + k] == cdata_open()[k] by {
                assert(v@[from + k] == cd_open@[k]);
            }
        }
        assert(matches_at(raw, cdata_close(), raw.len() - 3)) by {
            assert forall|k: int| 0 <= k < 3 implies #[trigger] raw[raw.len() - 3 + k]
                == cdata_close()[k] by {
                assert(v@[(to - 3) + k] == cd_close@[k]);
            }
        }
        let res = string_from_range(v, from + 9, to - 3);
        assert(res@ == raw.subrange(9, raw.len() - 3));
        res
    } else {
        proof {
            if raw.len() >= 12 && matches_at(raw, cdata_open(), 0) && matches_at(
                raw,
                cdata_close(),
                raw.len() - 3,
            ) {
                assert forall|k: int| 0 <= k < 9 implies #[trigger] v@[from + k] == cd_open@[k] by {
                    assert(raw[0 + k] == cdata_open()[k]);
                }
                assert(matches_at(v@, cd_open@, from as int));
                assert forall|k: int| 0 <= k < 3 implies #[trigger] v@[(to - 3) + k]
                    == cd_close@[k] by {
                    assert(raw[raw.len() - 3 + k] == cdata_close()[k]);
                }
                assert(matches_at(v@, cd_close@, to - 3));
            }
        }
        string_from_range(v, from, to)
    }
}

/// Extract the text content of a simple XML tag, stripping any CDATA wrapper.
///
/// Handles both `<tag>value</tag>` and `<tag><![CDATA[value]]></tag>`; the
/// first `<tag>` of the body counts, closed by the first `</tag>` after it.
pub fn extract_xml_value(body: &str, tag: &str) -> (res: Option<String>)
    ensures
        res.deep_view() == xml_value(body@, tag@),
{
    let b = chars_of(body);
    let open = open_tag_chars(tag);
    let close = close_tag_chars(tag);
    match find_chars(&b, &open, 0) {
        None => None,
        Some(i) => {
            proof {
                lemma_find_from(b@, open@, 0);
                assert(b@.len() == b.len());
            }
            let start = i + open.len();
            match find_chars(&b, &close, start) {
                None => None,
                Some(j) => {
                    proof {
                        lemma_find_from(b@, close@, start as nat);
                    }
                    Some(stripped_range(&b, start, j))
                },
            }
        },
    }
}

/// The value of `tag`, or the empty text when `body` has none.
pub open spec fn xml_value_or_empty(body: Seq<char>, tag: Seq<char>) -> Seq<char> {
    match xml_value(body, tag) {
        Some(v) => v,
        None => Seq::empty(),
    }
}

/// `"{day}d {hour}h {min}m"` from the sysinfo uptime fields; no value when
/// the day field is missing or empty.
pub open spec fn uptime_text(body: Seq<char>) -> Option<Seq<char>> {
    match xml_value(body, "uptime_day"@) {
        None => None,
        Some(day) => if day.len() == 0 {
            None
        } else {
            Some(
                day + seq!['d', ' '] + xml_value_or_empty(body, "uptime_hour"@) + seq!['h', ' ']
                    + xml_value_or_empty(body, "uptime_min"@) + seq!['m'],
            )
        },
    }
}

/// The value of `tag`, or an empty string when `body` has none.
pub fn extract_xml_value_or_empty(body: &str, tag: &str) -> (res: String)
    ensures
        res@ == xml_value_or_empty(body@, tag@),
{
    match extract_xml_value(body, tag) {
        Some(v) => v,
        None => String::new(),
    }
}

/// Format uptime from the three separate XML fields in sysinfo.
pub fn format_uptime(body: &str) -> (res: Option<String>)
    ensures
        res.deep_view() == uptime_text(body@),
{
    let day = match extract_xml_value(body, "uptime_day") {
        Some(d) => d,
        None => return None,
    };
    if day.as_str().is_empty() {
        return None;
    }
    let hour = extract_xml_value_or_empty(body, "uptime_hour");
    let min = extract_xml_value_or_empty(body, "uptime_min");
    let mut out = day;
    push_char(&mut out, 'd');
    push_char(&mut out, ' ');
    out.append(hour.as_str());
    push_char(&mut out, 'h');
    push_char(&mut out, ' ');
    out.append(min.as_str());
    push_char(&mut out, 'm');
    Some(out)
}


/// What redacting every value of `tag` with `rep` makes of `s[pos..]`.
pub open spec fn redacted_from(s: Seq<char>, tag: Seq<char>, rep: Seq<char>, pos: nat) -> Seq<
    char,
>
    decreases s.len() - pos,
{
    if pos > s.len() {
        Seq::empty()
    } else {
        match find_from(s, open_tag(tag), pos) {
            None => s.subrange(pos as int, s.len() as int),
            Some(i) => {
                proof {
                    lemma_find_from(s, open_tag(tag), pos);
                }
                let a = i + open_tag(tag).len();
                let head = s.subrange(pos as int, a as int);
                match find_from(s, close_tag(tag), a) {
                    Some(e) => {
                        proof {
                            lemma_find_from(s, close_tag(tag), a);
                        }
                        head + rep + redacted_from(s, tag, rep, e)
                    },
                    None => head + redacted_from(s, tag, rep, a),
                }
            },
        }
    }
}

/// `s` with the value of every `tag` element replaced by `rep`.
///
/// An opening tag without a closing tag after it is kept as it is.
pub open spec fn redacted(s: Seq<char>, tag: Seq<char>, rep: Seq<char>) -> Seq<char> {
    redacted_from(s, tag, rep, 0)
}

/// Replace the content between an XML tag pair with a fixed value.
///
/// Handles both plain (`<tag>value</tag>`) and CDATA
/// (`<tag><![CDATA[value]]></tag>`) forms by replacing everything
/// between the opening and closing tag.
pub fn redact_xml_tag(body: &str, tag: &str, replacement: &str) -> (res: String)
    ensures
        res@ == redacted(body@, tag@, replacement@),
{
    let b = chars_of(body);
    let open = open_tag_chars(tag);
    let close = close_tag_chars(tag);
    let mut result = String::new();
    let mut pos: usize = 0;
    loop
        invariant
            pos <= b.len(),
            b@ == body@,
            open@ == open_tag(tag@),
            close@ == close_tag(tag@),
            result@ + redacted_from(b@, tag@, replacement@, pos as nat) == redacted(
                body@,
                tag@,
                replacement@,
            ),
        decreases b.len() - pos,
    {
        match find_chars(&b, &open, pos) {
            None => {
                push_range(&mut result, &b, pos, b.len());
                return result;
            },
            Some(start) => {
                proof {
                    lemma_find_from(b@, open@, pos as nat);
                    assert(b@.len() == b.len());
                }
                let a = start + open.len();
                let ghost before = result@;
                push_range(&mut result, &b, pos, a);
                match find_chars(&b, &close, a) {
                    Some(end) => {
                        proof {
                            lemma_find_from(b@, close@, a as nat);
                        }
                        result.append(replacement);
                        assert(result@ + redacted_from(b@, tag@, replacement@, end as nat) == before
                            + redacted_from(b@, tag@, replacement@, pos as nat));
                        pos = end;
                    },
                    None => {
                        assert(result@ + redacted_from(b@, tag@, replacement@, a as nat) == before
                            + redacted_from(b@, tag@, replacement@, pos as nat));
                        pos = a;
                    },
                }
            },
        }
    }
}

/// The sysinfo document with serial number, host names, adapter addresses
/// and DNS servers replaced by placeholders.
pub open spec fn anonymized_xml(body: Seq<char>) -> Seq<char> {
    let b = redacted(body, "serial_number"@, "REDACTED"@);
    let b = redacted(b, "hostname"@, "<![CDATA[REDACTED]]>"@);
    let b = redacted(b, "server_name"@, "<![CDATA[REDACTED]]>"@);
    let b = redacted(b, "eth_ip1"@, "x.x.x.x"@);
    let b = redacted(b, "eth_ip2"@, "x.x.x.x"@);
    let b = redacted(b, "eth_ip3"@, "x.x.x.x"@);
    let b = redacted(b, "eth_ip4"@, "x.x.x.x"@);
    let b = redacted(b, "dns1"@, "x.x.x.x"@);
    let b = redacted(b, "dns2"@, "x.x.x.x"@);
    redacted(b, "DNS_LIST"@, "<![CDATA[x.x.x.x]]>"@)
}

/// Scrub the identifying fields of a sysinfo document before it is saved.
pub fn anonymize_xml(body: &str) -> (res: String)
    ensures
        res@ == anonymized_xml(body@),
{
    let b = redact_xml_tag(body, "serial_number", "REDACTED");
    // Hostname appears under two tag names depending on firmware version
    let b = redact_xml_tag(b.as_str(), "hostname", "<![CDATA[REDACTED]]>");
    let b = redact_xml_tag(b.as_str(), "server_name", "<![CDATA[REDACTED]]>");
    // Network interface IPs (eth_ip1 ... eth_ip4)
    let b = redact_xml_tag(b.as_str(), "eth_ip1", "x.x.x.x");
    let b = redact_xml_tag(b.as_str(), "eth_ip2", "x.x.x.x");
    let b = redact_xml_tag(b.as_str(), "eth_ip3", "x.x.x.x");
    let b = redact_xml_tag(b.as_str(), "eth_ip4", "x.x.x.x");
    // DNS entries, plain tags and CDATA list form
    let b = redact_xml_tag(b.as_str(), "dns1", "x.x.x.x");
    let b = redact_xml_tag(b.as_str(), "dns2", "x.x.x.x");
    redact_xml_tag(b.as_str(), "DNS_LIST", "<![CDATA[x.x.x.x]]>")
}

/// Every character of `tag` is `/`, when `<tag>` and `</tag>` agree on
/// their first `tag.len() + 2` characters.
proof fn lemma_open_close_agree_slashes(tag: Seq<char>, k: int)
    requires
        0 <= k < tag.len(),
        forall|m: int| 0 <= m < tag.len() + 2 ==> open_tag(tag)[m] == close_tag(tag)[m],
    ensures
        tag[k] == '/',
    decreases k,
{
    assert(open_tag(tag)[k + 1] == tag[k]);
    if k == 0 {
        assert(close_tag(tag)[1] == '/');
    } else {
        lemma_open_close_agree_slashes(tag, k - 1);
        assert(close_tag(tag)[k + 1] == tag[k - 1]);
    }
}

/// A closing tag never also reads as the opening tag of the same name.
pub proof fn lemma_close_is_not_open(s: Seq<char>, tag: Seq<char>, e: int)
    requires
        matches_at(s, close_tag(tag), e),
    ensures
        !matches_at(s, open_tag(tag), e),
{
    let o = open_tag(tag);
    let c = close_tag(tag);
    if matches_at(s, o, e) {
        assert forall|m: int| 0 <= m < tag.len() + 2 implies o[m] == c[m] by {
            assert(s[e + m] == o[m]);
            assert(s[e + m] == c[m]);
        }
        let n = tag.len() as int;
        if n == 0 {
            assert(o[1] == '>');
            assert(c[1] == '/');
        } else {
            lemma_open_close_agree_slashes(tag, n - 1);
            assert(o[n + 1] == '>');
            assert(c[n + 1] == tag[n - 1]);
        }
    }
}

/// Redaction that starts on a closing tag keeps that closing tag in front.
proof fn lemma_redacted_from_close_prefix(s: Seq<char>, tag: Seq<char>, rep: Seq<char>, e: nat)
    requires
        matches_at(s, close_tag(tag), e as int),
    ensures
        matches_at(redacted_from(s, tag, rep, e), close_tag(tag), 0),
{
    let o = open_tag(tag);
    let c = close_tag(tag);
    let r = redacted_from(s, tag, rep, e);
    lemma_find_from(s, o, e);
    match find_from(s, o, e) {
        None => {
            assert forall|k: int| 0 <= k < c.len() implies #[trigger] r[0 + k] == c[k] by {
                assert(s[e + k] == c[k]);
            }
        },
        Some(i) => {
            lemma_close_is_not_open(s, tag, e as int);
            let a = i + o.len();
            let head = s.subrange(e as int, a as int);
            assert(head.len() >= c.len());
            lemma_find_from(s, c, a);
            match find_from(s, c, a) {
                Some(e2) => {
                    assert(r == head + rep + redacted_from(s, tag, rep, e2));
                },
                None => {
                    assert(r == head + redacted_from(s, tag, rep, a));
                },
            }
            assert forall|k: int| 0 <= k < c.len() implies #[trigger] r[0 + k] == c[k] by {
                assert(r[k] == head[k]);
                assert(s[e + k] == c[k]);
            }
        },
    }
}


/// The closing tag of `tag` does not occur in `rep`, nor across the end of
/// `rep` into a closing tag that follows it.
pub open spec fn no_close_inside(rep: Seq<char>, tag: Seq<char>) -> bool {
    forall|j: int| 0 <= j < rep.len() ==> !matches_at(rep + close_tag(tag), close_tag(tag), j)
}

/// `<tag>` agrees with `</tag>` from offset `m` on, as far as both reach.
pub open spec fn open_fits_close_at(tag: Seq<char>, m: int) -> bool {
    forall|k: int|
        0 <= k && m + k < close_tag(tag).len() && k < open_tag(tag).len() ==> close_tag(tag)[m + k]
            == #[trigger] open_tag(tag)[k]
}

/// An opening tag of `tag` cannot begin inside a closing tag of `tag`: at
/// no offset into `</tag>` past its first character does `<tag>` fit.
///
/// Holds of every tag without `<`; fails of tags such as `><`.
pub open spec fn open_never_inside_close(tag: Seq<char>) -> bool {
    forall|m: int| 0 < m < close_tag(tag).len() ==> !#[trigger] open_fits_close_at(tag, m)
}

/// Every tag name without `<` has the property above.
pub proof fn lemma_plain_tag_never_inside_close(tag: Seq<char>)
    requires
        forall|k: int| 0 <= k < tag.len() ==> tag[k] != '<',
    ensures
        open_never_inside_close(tag),
{
    assert forall|m: int| 0 < m < close_tag(tag).len() implies !#[trigger] open_fits_close_at(
        tag,
        m,
    ) by {
        if m >= 2 && m < tag.len() + 2 {
            assert(close_tag(tag)[m + 0] == tag[m - 2]);
        }
        assert(close_tag(tag)[m + 0] != open_tag(tag)[0]);
    }
}

/// Where redacting `s[pos..]` finds its first element: the opening tag where
/// `s` has it, then the closing tag right after the replacement.
proof fn lemma_redacted_first_element(s: Seq<char>, tag: Seq<char>, rep: Seq<char>, pos: nat)
    requires
        pos <= s.len(),
        no_close_inside(rep, tag),
        find_from(s, open_tag(tag), pos) is Some,
        find_from(
            s,
            close_tag(tag),
            find_from(s, open_tag(tag), pos)->0 + open_tag(tag).len(),
        ) is Some,
    ensures
        ({
            let o = open_tag(tag);
            let c = close_tag(tag);
            let i = find_from(s, o, pos)->0;
            let a = i + o.len();
            let e = find_from(s, c, a)->0;
            let out = redacted_from(s, tag, rep, pos);
            let h = s.subrange(pos as int, a as int);
            &&& pos <= i && a <= e && e + c.len() <= s.len()
            &&& out == h + rep + redacted_from(s, tag, rep, e)
            &&& find_from(out, o, 0) == Some((i - pos) as nat)
            &&& find_from(out, c, h.len()) == Some(h.len() + rep.len())
        }),
{
    let o = open_tag(tag);
    let c = close_tag(tag);
    lemma_find_from(s, o, pos);
    let i = find_from(s, o, pos)->0;
    let a = i + o.len();
    lemma_find_from(s, c, a);
    let e = find_from(s, c, a)->0;
    let h = s.subrange(pos as int, a as int);
    let r = redacted_from(s, tag, rep, e);
    let out = redacted_from(s, tag, rep, pos);
    assert(out == h + rep + r);
    lemma_redacted_from_close_prefix(s, tag, rep, e);
    // the opening tag is found where `s` has it
    let ip = (i - pos) as nat;
    assert forall|k: int| 0 <= k < o.len() implies #[trigger] out[ip + k] == o[k] by {
        assert(out[ip + k] == s[i + k]);
    }
    assert forall|j: int| 0 <= j < ip implies !matches_at(out, o, j) by {
        if matches_at(out, o, j) {
            assert forall|k: int| 0 <= k < o.len() implies #[trigger] s[(pos + j) + k] == o[k] by {
                assert(out[j + k] == o[k]);
                assert(out[j + k] == s[pos + j + k]);
            }
            assert(matches_at(s, o, pos + j));
        }
    }
    lemma_find_from_unique(out, o, 0, ip);
    // the closing tag is found right after the replacement
    let hl = h.len();
    let end = hl + rep.len();
    assert forall|k: int| 0 <= k < c.len() implies #[trigger] out[end + k] == c[k] by {
        assert(out[end + k] == r[0 + k]);
    }
    let rc = rep + c;
    assert forall|t: int| 0 <= t < rep.len() + c.len() implies out[hl + t] == #[trigger] rc[t] by {
        if t < rep.len() {
            assert(out[hl + t] == rep[t]);
        } else {
            assert(out[hl + t] == r[0 + (t - rep.len())]);
        }
    }
    assert forall|j: int| hl <= j < end implies !matches_at(out, c, j) by {
        if matches_at(out, c, j) {
            let t = j - hl;
            assert forall|k: int| 0 <= k < c.len() implies #[trigger] rc[t + k] == c[k] by {
                assert(out[j + k] == c[k]);
                assert(out[hl + (t + k)] == rc[t + k]);
            }
            assert(matches_at(rc, c, t));
        }
    }
    lemma_find_from_unique(out, c, hl, end);
}

/// After redacting `tag` with `rep`, reading `tag` gives `rep` back (CDATA
/// wrapper removed) when the body had a value for `tag`, and still nothing
/// when it had none; the closing tag must not already occur inside `rep`.
pub proof fn law_read_after_redact(body: Seq<char>, tag: Seq<char>, rep: Seq<char>)
    requires
        no_close_inside(rep, tag),
    ensures
        xml_value(redacted(body, tag, rep), tag) == match value_span(body, tag) {
            Some(_) => Some(strip_cdata(rep)),
            None => None::<Seq<char>>,
        },
{
    if value_span(body, tag) is None {
        law_redact_without_tag_is_identity(body, tag, rep);
    } else {
        let o = open_tag(tag);
        let c = close_tag(tag);
        lemma_redacted_first_element(body, tag, rep, 0);
        let i = find_from(body, o, 0)->0;
        let a = i + o.len();
        let out = redacted(body, tag, rep);
        let h = body.subrange(0, a as int);
        assert(out.subrange(h.len() as int, (h.len() + rep.len()) as int) == rep);
    }
}

/// With no closing tag at or after `q`, redaction leaves `s[q..]` as it is.
proof fn lemma_redacted_from_no_close(s: Seq<char>, tag: Seq<char>, rep: Seq<char>, q: nat)
    requires
        q <= s.len(),
        find_from(s, close_tag(tag), q) is None,
    ensures
        redacted_from(s, tag, rep, q) == s.subrange(q as int, s.len() as int),
    decreases s.len() - q,
{
    let o = open_tag(tag);
    let c = close_tag(tag);
    lemma_find_from(s, o, q);
    lemma_find_from(s, c, q);
    match find_from(s, o, q) {
        None => {},
        Some(i) => {
            let a = i + o.len();
            lemma_find_from_none(s, c, a);
            lemma_redacted_from_no_close(s, tag, rep, a);
            assert(s.subrange(q as int, a as int) + s.subrange(a as int, s.len() as int)
                == s.subrange(q as int, s.len() as int));
        },
    }
}

/// Redacting a tag leaves a body unchanged when the tag has no value there:
/// the body has no opening tag, or no closing tag after its first one.
pub proof fn law_redact_without_tag_is_identity(body: Seq<char>, tag: Seq<char>, rep: Seq<char>)
    requires
        value_span(body, tag) is None,
    ensures
        redacted(body, tag, rep) == body,
{
    let o = open_tag(tag);
    lemma_find_from(body, o, 0);
    match find_from(body, o, 0) {
        None => {
            assert(body.subrange(0, body.len() as int) == body);
        },
        Some(i) => {
            let a = i + o.len();
            lemma_redacted_from_no_close(body, tag, rep, a);
            assert(body.subrange(0, a as int) + body.subrange(a as int, body.len() as int)
                == body);
        },
    }
}

/// Redaction that starts on a closing tag passes over that closing tag.
proof fn lemma_redacted_from_skip_close(s: Seq<char>, tag: Seq<char>, rep: Seq<char>, q: nat)
    requires
        matches_at(s, close_tag(tag), q as int),
        open_never_inside_close(tag),
    ensures
        redacted_from(s, tag, rep, q) == close_tag(tag) + redacted_from(
            s,
            tag,
            rep,
            q + close_tag(tag).len(),
        ),
{
    let o = open_tag(tag);
    let c = close_tag(tag);
    let q2 = q + c.len();
    assert forall|j: int| q <= j < q2 implies !matches_at(s, o, j) by {
        if j == q {
            lemma_close_is_not_open(s, tag, q as int);
        } else if matches_at(s, o, j) {
            let m = j - q;
            assert forall|k: int|
                0 <= k && m + k < c.len() && k < o.len() implies c[m + k] == #[trigger] o[k] by {
                assert(s[q + (m + k)] == c[m + k]);
                assert(s[j + k] == o[k]);
            }
            assert(open_fits_close_at(tag, m));
        }
    }
    lemma_find_from(s, o, q);
    lemma_find_from(s, o, q2);
    match find_from(s, o, q2) {
        None => {
            lemma_find_from_none(s, o, q);
            let lhs = s.subrange(q as int, s.len() as int);
            let rhs = c + s.subrange(q2 as int, s.len() as int);
            assert forall|t: int| 0 <= t < lhs.len() implies lhs[t] == rhs[t] by {
                if t < c.len() {
                    assert(s[q + t] == c[t]);
                }
            }
            assert(lhs =~= rhs);
        },
        Some(i) => {
            lemma_find_from_unique(s, o, q, i);
            let a = i + o.len();
            let lhs = s.subrange(q as int, a as int);
            let rhs = c + s.subrange(q2 as int, a as int);
            assert forall|t: int| 0 <= t < lhs.len() implies lhs[t] == rhs[t] by {
                if t < c.len() {
                    assert(s[q + t] == c[t]);
                }
            }
            assert(lhs =~= rhs);
            match find_from(s, c, a) {
                Some(e) => {
                    lemma_find_from(s, c, a);
                    assert(redacted_from(s, tag, rep, q) == c + (s.subrange(q2 as int, a as int)
                        + rep + redacted_from(s, tag, rep, e)));
                },
                None => {
                    assert(redacted_from(s, tag, rep, q) == c + (s.subrange(q2 as int, a as int)
                        + redacted_from(s, tag, rep, a)));
                },
            }
        },
    }
}

/// Searching `x + y` from inside `y` is searching `y`.
proof fn lemma_find_after_prefix(x: Seq<char>, y: Seq<char>, pat: Seq<char>, k: nat)
    ensures
        match find_from(y, pat, k) {
            Some(i) => find_from(x + y, pat, x.len() + k) == Some(x.len() + i),
            None => find_from(x + y, pat, x.len() + k) is None,
        },
{
    let s = x + y;
    if k > y.len() {
        assert(find_from(y, pat, k) is None);
        assert(find_from(s, pat, x.len() + k) is None);
    } else {
        lemma_find_in_suffix(s, pat, x.len() + k);
        lemma_find_in_suffix(y, pat, k);
        assert(s.skip((x.len() + k) as int) == y.skip(k as int));
    }
}

/// Reading the elements of `x + y` from inside `y` reads the elements of `y`.
proof fn lemma_xml_values_after_prefix(x: Seq<char>, y: Seq<char>, tag: Seq<char>, k: nat)
    ensures
        xml_values_from(x + y, tag, x.len() + k) == xml_values_from(y, tag, k),
    decreases y.len() - k,
{
    let o = open_tag(tag);
    let c = close_tag(tag);
    let s = x + y;
    lemma_find_after_prefix(x, y, o, k);
    lemma_find_from(y, o, k);
    match find_from(y, o, k) {
        None => {},
        Some(i) => {
            let a = i + o.len();
            lemma_find_after_prefix(x, y, c, a);
            lemma_find_from(y, c, a);
            match find_from(y, c, a) {
                None => {},
                Some(e) => {
                    assert(s.subrange((x.len() + a) as int, (x.len() + e) as int) == y.subrange(a as int, e as int));
                    lemma_xml_values_after_prefix(x, y, tag, e + c.len());
                    assert(x.len() + e + c.len() == x.len() + (e + c.len()));
                },
            }
        },
    }
}

/// `n` copies of `v`.
pub open spec fn repeated(v: Seq<char>, n: nat) -> Seq<Seq<char>> {
    Seq::new(n, |_i: int| v)
}

/// Reading `tag` from the redaction of `s[pos..]` gives the replacement once
/// for each element that `s[pos..]` has.
#[verifier::rlimit(40)]
proof fn lemma_values_after_redact_from(s: Seq<char>, tag: Seq<char>, rep: Seq<char>, pos: nat)
    requires
        pos <= s.len(),
        no_close_inside(rep, tag),
        open_never_inside_close(tag),
    ensures
        xml_values(redacted_from(s, tag, rep, pos), tag) == repeated(
            strip_cdata(rep),
            xml_values_from(s, tag, pos).len(),
        ),
    decreases s.len() - pos,
{
    let o = open_tag(tag);
    let c = close_tag(tag);
    let out = redacted_from(s, tag, rep, pos);
    let x = s.subrange(0, pos as int);
    let y = s.subrange(pos as int, s.len() as int);
    assert(s == x + y);
    lemma_find_from(s, o, pos);
    match find_from(s, o, pos) {
        None => {
            lemma_xml_values_after_prefix(x, y, tag, 0);
            assert(repeated(strip_cdata(rep), 0) == Seq::<Seq<char>>::empty());
        },
        Some(i) => {
            let a = i + o.len();
            lemma_find_from(s, c, a);
            match find_from(s, c, a) {
                None => {
                    lemma_redacted_from_no_close(s, tag, rep, a);
                    assert(out == y);
                    lemma_xml_values_after_prefix(x, y, tag, 0);
                    assert(repeated(strip_cdata(rep), 0) == Seq::<Seq<char>>::empty());
                },
                Some(e) => {
                    lemma_redacted_first_element(s, tag, rep, pos);
                    lemma_redacted_from_skip_close(s, tag, rep, e);
                    let h = s.subrange(pos as int, a as int);
                    let next = e + c.len();
                    let r = redacted_from(s, tag, rep, next);
                    let front = h + rep + c;
                    assert(out == front + r);
                    assert(out.subrange(h.len() as int, (h.len() + rep.len()) as int) == rep);
                    assert(xml_values_from(out, tag, 0) == seq![strip_cdata(rep)]
                        + xml_values_from(out, tag, h.len() + rep.len() + c.len()));
                    lemma_xml_values_after_prefix(front, r, tag, 0);
                    lemma_values_after_redact_from(s, tag, rep, next);
                    let n = xml_values_from(s, tag, next).len();
                    assert(xml_values_from(s, tag, pos).len() == n + 1);
                    assert(seq![strip_cdata(rep)] + repeated(strip_cdata(rep), n) == repeated(
                        strip_cdata(rep),
                        n + 1,
                    ));
                },
            }
        },
    }
}

/// After redacting `tag` with `rep`, every element of `tag` reads `rep`
/// (CDATA wrapper removed), and there are as many as before; this holds
/// whenever `rep` hides no closing tag and an opening tag of `tag` cannot
/// begin inside its closing tag.
pub proof fn law_every_value_redacted(body: Seq<char>, tag: Seq<char>, rep: Seq<char>)
    requires
        no_close_inside(rep, tag),
        open_never_inside_close(tag),
    ensures
        xml_values(redacted(body, tag, rep), tag) == repeated(
            strip_cdata(rep),
            xml_values(body, tag).len(),
        ),
{
    lemma_values_after_redact_from(body, tag, rep, 0);
}

/// A tag name that is not empty, holds neither `<` nor `>`, and does not
/// begin with `!` or `/`.
pub open spec fn plain_name(t: Seq<char>) -> bool {
    &&& t.len() > 0
    &&& t[0] != '!'
    &&& t[0] != '/'
    &&& forall|k: int| 0 <= k < t.len() ==> #[trigger] t[k] != '<' && t[k] != '>'
}

/// A replacement whose every `<` opens a `<!` construct and which then
/// ends with `>`, like the CDATA placeholders; one without `<` qualifies.
pub open spec fn safe_rep(r: Seq<char>) -> bool {
    forall|j: int|
        0 <= j < r.len() && #[trigger] r[j] == '<' ==> j + 1 < r.len() && r[j + 1] == '!' && r.last()
            == '>'
}

/// No occurrence of `pat` anywhere in `s`.
pub open spec fn nowhere(s: Seq<char>, pat: Seq<char>) -> bool {
    forall|j: int| !#[trigger] matches_at(s, pat, j)
}

/// `pat` does not occur in the concatenation when it occurs in neither
/// part and cannot run across the join: `pat` starts with `<` and has `>`
/// only last, and the first part ends with `>` or holds no `<`.
proof fn lemma_nowhere_concat(a: Seq<char>, b: Seq<char>, pat: Seq<char>)
    requires
        pat.len() >= 1,
        pat[0] == '<',
        forall|k: int| 0 <= k < pat.len() - 1 ==> #[trigger] pat[k] != '>',
        nowhere(a, pat),
        nowhere(b, pat),
        (a.len() > 0 && a.last() == '>') || forall|k: int| 0 <= k < a.len() ==> #[trigger] a[k]
            != '<',
    ensures
        nowhere(a + b, pat),
{
    let ab = a + b;
    assert forall|j: int| !#[trigger] matches_at(ab, pat, j) by {
        if matches_at(ab, pat, j) {
            if j + pat.len() <= a.len() {
                assert forall|k: int| 0 <= k < pat.len() implies #[trigger] a[j + k] == pat[k] by {
                    assert(ab[j + k] == pat[k]);
                }
                assert(matches_at(a, pat, j));
            } else if j >= a.len() {
                assert forall|k: int| 0 <= k < pat.len() implies #[trigger] b[(j - a.len()) + k]
                    == pat[k] by {
                    assert(ab[j + k] == pat[k]);
                }
                assert(matches_at(b, pat, j - a.len()));
            } else if a.len() > 0 && a.last() == '>' {
                let k = a.len() - 1 - j;
                assert(ab[j + k] == pat[k]);
            } else {
                assert(ab[j + 0] == pat[0]);
            }
        }
    }
}

/// A stretch of `s` from `lo` on holds no occurrence that `s` lacks there.
proof fn lemma_nowhere_sub(s: Seq<char>, pat: Seq<char>, lo: int, hi: int)
    requires
        0 <= lo <= hi <= s.len(),
        forall|j: int| lo <= j ==> !#[trigger] matches_at(s, pat, j),
    ensures
        nowhere(s.subrange(lo, hi), pat),
{
    let t = s.subrange(lo, hi);
    assert forall|j: int| !#[trigger] matches_at(t, pat, j) by {
        if matches_at(t, pat, j) {
            assert forall|k: int| 0 <= k < pat.len() implies #[trigger] s[(lo + j) + k] == pat[k] by {
                assert(t[j + k] == pat[k]);
            }
            assert(matches_at(s, pat, lo + j));
        }
    }
}

/// Redaction brings in no occurrence of an opening tag that `s[pos..]`
/// lacks, when the replacement holds none and cannot start one across its
/// end.
proof fn lemma_redaction_adds_no_open(
    s: Seq<char>,
    tag: Seq<char>,
    rep: Seq<char>,
    pat: Seq<char>,
    pos: nat,
)
    requires
        pos <= s.len(),
        forall|j: int| pos <= j ==> !#[trigger] matches_at(s, pat, j),
        pat.len() >= 1,
        pat[0] == '<',
        forall|k: int| 0 <= k < pat.len() - 1 ==> #[trigger] pat[k] != '>',
        nowhere(rep, pat),
        (rep.len() > 0 && rep.last() == '>') || forall|k: int| 0 <= k < rep.len() ==> #[trigger] rep[k]
            != '<',
    ensures
        nowhere(redacted_from(s, tag, rep, pos), pat),
    decreases s.len() - pos,
{
    let o = open_tag(tag);
    let c = close_tag(tag);
    lemma_find_from(s, o, pos);
    match find_from(s, o, pos) {
        None => {
            lemma_nowhere_sub(s, pat, pos as int, s.len() as int);
        },
        Some(i) => {
            let a = i + o.len();
            let head = s.subrange(pos as int, a as int);
            lemma_nowhere_sub(s, pat, pos as int, a as int);
            assert(head.last() == s[a - 1]);
            assert(s[i + (o.len() - 1)] == o[o.len() - 1]);
            lemma_find_from(s, c, a);
            match find_from(s, c, a) {
                Some(e) => {
                    let rest = redacted_from(s, tag, rep, e);
                    lemma_redaction_adds_no_open(s, tag, rep, pat, e);
                    lemma_nowhere_concat(rep, rest, pat);
                    lemma_nowhere_concat(head, rep + rest, pat);
                    assert(head + rep + rest == head + (rep + rest));
                },
                None => {
                    lemma_redaction_adds_no_open(s, tag, rep, pat, a);
                    lemma_nowhere_concat(head, redacted_from(s, tag, rep, a), pat);
                },
            }
        },
    }
}

/// The redactions of `steps`, one after the other.
pub open spec fn redact_all(s: Seq<char>, steps: Seq<(Seq<char>, Seq<char>)>) -> Seq<char>
    decreases steps.len(),
{
    if steps.len() == 0 {
        s
    } else {
        redact_all(redacted(s, steps[0].0, steps[0].1), steps.drop_first())
    }
}

/// The tags the sysinfo document is scrubbed of, each with its placeholder,
/// in the order they are scrubbed.
pub open spec fn scrubbed_tags() -> Seq<(Seq<char>, Seq<char>)> {
    seq![
        ("serial_number"@, "REDACTED"@),
        ("hostname"@, "<![CDATA[REDACTED]]>"@),
        ("server_name"@, "<![CDATA[REDACTED]]>"@),
        ("eth_ip1"@, "x.x.x.x"@),
        ("eth_ip2"@, "x.x.x.x"@),
        ("eth_ip3"@, "x.x.x.x"@),
        ("eth_ip4"@, "x.x.x.x"@),
        ("dns1"@, "x.x.x.x"@),
        ("dns2"@, "x.x.x.x"@),
        ("DNS_LIST"@, "<![CDATA[x.x.x.x]]>"@),
    ]
}

/// An opening tag of a plain name starts with `<` and has `>` only last.
proof fn lemma_plain_open_tag(t: Seq<char>)
    requires
        plain_name(t),
    ensures
        open_tag(t).len() >= 1,
        open_tag(t)[0] == '<',
        forall|k: int| 0 <= k < open_tag(t).len() - 1 ==> #[trigger] open_tag(t)[k] != '>',
{
    assert forall|k: int| 0 <= k < open_tag(t).len() - 1 implies #[trigger] open_tag(t)[k] != '>' by {
        if k > 0 {
            assert(open_tag(t)[k] == t[k - 1]);
        }
    }
}

/// A safe replacement holds no opening tag of a plain name.
proof fn lemma_safe_rep_has_no_open(r: Seq<char>, t: Seq<char>)
    requires
        safe_rep(r),
        plain_name(t),
    ensures
        nowhere(r, open_tag(t)),
        (r.len() > 0 && r.last() == '>') || forall|k: int| 0 <= k < r.len() ==> #[trigger] r[k] != '<',
        no_close_inside(r, t),
{
    let o = open_tag(t);
    let c = close_tag(t);
    assert forall|j: int| !#[trigger] matches_at(r, o, j) by {
        if matches_at(r, o, j) {
            assert(r[j + 0] == o[0]);
            assert(r[j + 1] == o[1]);
        }
    }
    if !(forall|k: int| 0 <= k < r.len() ==> #[trigger] r[k] != '<') {
        let k = choose|k: int| 0 <= k < r.len() && r[k] == '<';
        assert(r[k] == '<');
    }
    let rc = r + c;
    assert forall|j: int| 0 <= j < r.len() implies !matches_at(rc, c, j) by {
        if matches_at(rc, c, j) {
            assert(rc[j + 0] == c[0]);
            assert(r[j] == '<');
            assert(rc[j + 1] == c[1]);
        }
    }
}

/// Redacting in turn with `steps` changes nothing when `s` holds no opening
/// tag of any of them.
proof fn lemma_redact_all_absent(s: Seq<char>, steps: Seq<(Seq<char>, Seq<char>)>)
    requires
        forall|i: int| 0 <= i < steps.len() ==> #[trigger] find_from(s, open_tag(steps[i].0), 0) is None,
    ensures
        redact_all(s, steps) == s,
    decreases steps.len(),
{
    if steps.len() > 0 {
        assert(find_from(s, open_tag(steps[0].0), 0) is None);
        law_redact_without_tag_is_identity(s, steps[0].0, steps[0].1);
        assert forall|i: int| 0 <= i < steps.drop_first().len() implies #[trigger] find_from(
            s,
            open_tag(steps.drop_first()[i].0),
            0,
        ) is None by {
            assert(steps.drop_first()[i] == steps[i + 1]);
        }
        lemma_redact_all_absent(s, steps.drop_first());
    }
}

/// Redacting in turn with `steps`, when `s` holds opening tags of the
/// `k`-th step's tag only, is redacting that one tag.
proof fn lemma_redact_all_single(s: Seq<char>, steps: Seq<(Seq<char>, Seq<char>)>, k: int)
    requires
        0 <= k < steps.len(),
        forall|i: int| 0 <= i < steps.len() ==> plain_name(#[trigger] steps[i].0),
        safe_rep(steps[k].1),
        forall|i: int|
            0 <= i < steps.len() && i != k ==> #[trigger] find_from(s, open_tag(steps[i].0), 0) is None,
    ensures
        redact_all(s, steps) == redacted(s, steps[k].0, steps[k].1),
    decreases steps.len(),
{
    let rest = steps.drop_first();
    if k == 0 {
        let out = redacted(s, steps[0].0, steps[0].1);
        assert forall|i: int| 0 <= i < rest.len() implies #[trigger] find_from(
            out,
            open_tag(rest[i].0),
            0,
        ) is None by {
            assert(rest[i] == steps[i + 1]);
            let t = rest[i].0;
            assert(plain_name(steps[i + 1].0));
            assert(find_from(s, open_tag(steps[i + 1].0), 0) is None);
            lemma_find_from(s, open_tag(t), 0);
            lemma_plain_open_tag(t);
            lemma_safe_rep_has_no_open(steps[0].1, t);
            lemma_redaction_adds_no_open(s, steps[0].0, steps[0].1, open_tag(t), 0);
            lemma_find_from_none(out, open_tag(t), 0);
        }
        lemma_redact_all_absent(out, rest);
    } else {
        assert(find_from(s, open_tag(steps[0].0), 0) is None);
        law_redact_without_tag_is_identity(s, steps[0].0, steps[0].1);
        assert forall|i: int|
            0 <= i < rest.len() && i != k - 1 implies #[trigger] find_from(
            s,
            open_tag(rest[i].0),
            0,
        ) is None by {
            assert(rest[i] == steps[i + 1]);
        }
        assert forall|i: int| 0 <= i < rest.len() implies plain_name(#[trigger] rest[i].0) by {
            assert(rest[i] == steps[i + 1]);
        }
        assert(rest[k - 1] == steps[k]);
        lemma_redact_all_single(s, rest, k - 1);
    }
}

/// The anonymized document is the sysinfo document redacted of each scrubbed
/// tag in turn.
proof fn lemma_anonymized_is_redact_all(body: Seq<char>)
    ensures
        anonymized_xml(body) == redact_all(body, scrubbed_tags()),
{
    let st = scrubbed_tags();
    reveal_with_fuel(redact_all, 11);
    assert(st.drop_first().drop_first().drop_first().drop_first().drop_first().drop_first().drop_first().drop_first().drop_first().drop_first() =~= Seq::<(Seq<char>, Seq<char>)>::empty());
    assert(st.drop_first()[0] == st[1]);
    assert(st.drop_first().drop_first()[0] == st[2]);
    assert(st.drop_first().drop_first().drop_first()[0] == st[3]);
    assert(st.drop_first().drop_first().drop_first().drop_first()[0] == st[4]);
    assert(st.drop_first().drop_first().drop_first().drop_first().drop_first()[0] == st[5]);
    assert(st.drop_first().drop_first().drop_first().drop_first().drop_first().drop_first()[0] == st[6]);
    assert(st.drop_first().drop_first().drop_first().drop_first().drop_first().drop_first().drop_first()[0] == st[7]);
    assert(st.drop_first().drop_first().drop_first().drop_first().drop_first().drop_first().drop_first().drop_first()[0] == st[8]);
    assert(st.drop_first().drop_first().drop_first().drop_first().drop_first().drop_first().drop_first().drop_first().drop_first()[0] == st[9]);
}

/// The scrubbed tags have plain names and their placeholders are safe.
proof fn lemma_scrubbed_tags_are_plain()
    ensures
        forall|i: int| 0 <= i < scrubbed_tags().len() ==> plain_name(#[trigger] scrubbed_tags()[i].0),
        forall|i: int| 0 <= i < scrubbed_tags().len() ==> safe_rep(#[trigger] scrubbed_tags()[i].1),
{
    reveal_strlit("serial_number");
    reveal_strlit("hostname");
    reveal_strlit("server_name");
    reveal_strlit("eth_ip1");
    reveal_strlit("eth_ip2");
    reveal_strlit("eth_ip3");
    reveal_strlit("eth_ip4");
    reveal_strlit("dns1");
    reveal_strlit("dns2");
    reveal_strlit("DNS_LIST");
    reveal_strlit("REDACTED");
    reveal_strlit("<![CDATA[REDACTED]]>");
    reveal_strlit("x.x.x.x");
    reveal_strlit("<![CDATA[x.x.x.x]]>");
    let st = scrubbed_tags();
    assert forall|i: int| 0 <= i < st.len() implies plain_name(#[trigger] st[i].0) && safe_rep(st[i].1) by {
        let t = st[i].0;
        let r = st[i].1;
        assert(t.len() > 0);
        assert(t[0] != '!' && t[0] != '/');
        assert forall|k: int| 0 <= k < t.len() implies #[trigger] t[k] != '<' && t[k] != '>' by {}
        assert forall|j: int| 0 <= j < r.len() && #[trigger] r[j] == '<' implies j + 1 < r.len() && r[j + 1] == '!' && r.last() == '>' by {}
    }
}

/// Anonymizing a sysinfo document whose only scrubbed elements are those of
/// one scrubbed tag leaves every value of that tag reading its placeholder
/// (CDATA wrapper removed: `REDACTED` for the serial number and host names,
/// `x.x.x.x` for the adapter addresses and DNS servers), with as many
/// values as the document had.
pub proof fn law_anonymize_scrubs_every_value(body: Seq<char>, k: int)
    requires
        0 <= k < scrubbed_tags().len(),
        forall|i: int|
            0 <= i < scrubbed_tags().len() && i != k ==> #[trigger] find_from(
                body,
                open_tag(scrubbed_tags()[i].0),
                0,
            ) is None,
    ensures
        xml_values(anonymized_xml(body), scrubbed_tags()[k].0) == repeated(
            strip_cdata(scrubbed_tags()[k].1),
            xml_values(body, scrubbed_tags()[k].0).len(),
        ),
{
    let st = scrubbed_tags();
    lemma_anonymized_is_redact_all(body);
    lemma_scrubbed_tags_are_plain();
    assert(plain_name(st[k].0));
    assert(safe_rep(st[k].1));
    lemma_redact_all_single(body, st, k);
    lemma_safe_rep_has_no_open(st[k].1, st[k].0);
    assert(forall|q: int| 0 <= q < st[k].0.len() ==> st[k].0[q] != '<');
    lemma_plain_tag_never_inside_close(st[k].0);
    law_every_value_redacted(body, st[k].0, st[k].1);
}

/// The values of the `tag` elements of `body[pos..]`, in document order.
///
/// An element is an opening tag followed by a closing tag; the search for
/// the next one resumes after that closing tag.
pub open spec fn xml_values_from(body: Seq<char>, tag: Seq<char>, pos: nat) -> Seq<Seq<char>>
    decreases body.len() - pos,
{
    match find_from(body, open_tag(tag), pos) {
        None => Seq::empty(),
        Some(i) => {
            proof {
                lemma_find_from(body, open_tag(tag), pos);
            }
            let a = i + open_tag(tag).len();
            match find_from(body, close_tag(tag), a) {
                None => Seq::empty(),
                Some(e) => {
                    proof {
                        lemma_find_from(body, close_tag(tag), a);
                    }
                    seq![strip_cdata(body.subrange(a as int, e as int))] + xml_values_from(
                        body,
                        tag,
                        e + close_tag(tag).len(),
                    )
                },
            }
        },
    }
}

/// The values of all `tag` elements of `body`, in document order.
pub open spec fn xml_values(body: Seq<char>, tag: Seq<char>) -> Seq<Seq<char>> {
    xml_values_from(body, tag, 0)
}

/// The values of all `tag` elements of `body`, in document order.
pub fn extract_xml_values(body: &str, tag: &str) -> (res: Vec<String>)
    ensures
        res.deep_view() == xml_values(body@, tag@),
{
    let b = chars_of(body);
    let open = open_tag_chars(tag);
    let close = close_tag_chars(tag);
    let mut res: Vec<String> = Vec::new();
    let mut pos: usize = 0;
    loop
        invariant
            b@ == body@,
            open@ == open_tag(tag@),
            close@ == close_tag(tag@),
            res.deep_view() + xml_values_from(b@, tag@, pos as nat) == xml_values(body@, tag@),
        decreases b.len() - pos,
    {
        match find_chars(&b, &open, pos) {
            None => {
                assert(res.deep_view() + Seq::<Seq<char>>::empty() == res.deep_view());
                return res;
            },
            Some(i) => {
                proof {
                    lemma_find_from(b@, open@, pos as nat);
                    assert(b@.len() == b.len());
                }
                let a = i + open.len();
                match find_chars(&b, &close, a) {
                    None => {
                        assert(res.deep_view() + Seq::<Seq<char>>::empty() == res.deep_view());
                        return res;
                    },
                    Some(e) => {
                        proof {
                            lemma_find_from(b@, close@, a as nat);
                        }
                        let v = stripped_range(&b, a, e);
                        let ghost before = res.deep_view();
                        let ghost old_pos = pos;
                        res.push(v);
                        assert(res.deep_view() == before.push(v@));
                        pos = e + close.len();
                        assert(xml_values_from(b@, tag@, old_pos as nat) == seq![v@]
                            + xml_values_from(b@, tag@, pos as nat));
                        assert(res.deep_view() + xml_values_from(b@, tag@, pos as nat) == before
                            + xml_values_from(b@, tag@, old_pos as nat));
                    },
                }
            },
        }
    }
}

/// For each `(key, tag)` of `fields` whose tag has a value, the pair
/// `(key, value)`, in the order of `fields`.
pub open spec fn fields_found(body: Seq<char>, fields: Seq<(Seq<char>, Seq<char>)>) -> Seq<
    (Seq<char>, Seq<char>),
>
    decreases fields.len(),
{
    if fields.len() == 0 {
        Seq::empty()
    } else {
        let rest = fields_found(body, fields.drop_last());
        let (key, tag) = fields.last();
        match xml_value(body, tag) {
            Some(v) => rest.push((key, v)),
            None => rest,
        }
    }
}

/// The map that the pairs make, a later pair overriding an earlier one
/// with the same key.
pub open spec fn pairs_to_map(pairs: Seq<(Seq<char>, Seq<char>)>) -> Map<Seq<char>, Seq<char>>
    decreases pairs.len(),
{
    if pairs.len() == 0 {
        Map::empty()
    } else {
        pairs_to_map(pairs.drop_last()).insert(pairs.last().0, pairs.last().1)
    }
}

#[verifier::external_type_specification]
#[verifier::external_body]
#[verifier::reject_recursive_types(K)]
#[verifier::reject_recursive_types(V)]
pub struct ExJsonMap<K, V>(serde_json::Map<K, V>);

#[verifier::external_type_specification]
#[verifier::external_body]
pub struct ExJsonValue(serde_json::Value);

/// A JSON object, as serde_json holds it.
pub type JsonObject = serde_json::Map<String, serde_json::Value>;

/// The entries of a JSON object whose values are strings, as plain text.
pub uninterp spec fn json_string_entries(m: JsonObject) -> Map<Seq<char>, Seq<char>>;

/// Calls `serde_json::Map::new`: an empty object.
#[verifier::external_body]
fn json_map_new() -> (res: JsonObject)
    ensures
        json_string_entries(res).dom() == Set::<Seq<char>>::empty(),
{
    serde_json::Map::new()
}

/// Calls `serde_json::Map::insert` with a string value: the key now holds
/// that string, whatever it held before; no other entry changes.
#[verifier::external_body]
fn json_map_insert_string(
    m: &mut JsonObject,
    key: String,
    value: String,
)
    ensures
        json_string_entries(*final(m)) == json_string_entries(*old(m)).insert(key@, value@),
{
    m.insert(key, serde_json::Value::String(value));
}

/// Build a JSON object from the values of the `(output_key, xml_tag)` pairs
/// of `fields` that `body` has: each key holds its tag's value as a string;
/// a repeated key keeps its last value.
pub fn xml_fields_to_map(body: &str, fields: &[(&str, &str)]) -> (res: JsonObject)
    ensures
        json_string_entries(res) == pairs_to_map(
            fields_found(body@, fields@.map_values(|f: (&str, &str)| (f.0@, f.1@))),
        ),
{
    let ghost fs = fields@.map_values(|f: (&str, &str)| (f.0@, f.1@));
    let mut map = json_map_new();
    assert(json_string_entries(map) =~= pairs_to_map(fields_found(body@, fs.take(0))));
    let mut k: usize = 0;
    while k < fields.len()
        invariant
            k <= fields.len(),
            fs == fields@.map_values(|f: (&str, &str)| (f.0@, f.1@)),
            json_string_entries(map) == pairs_to_map(fields_found(body@, fs.take(k as int))),
        decreases fields.len() - k,
    {
        let (key, tag) = fields[k];
        assert(fs.take(k + 1).drop_last() == fs.take(k as int));
        assert(fs.take(k + 1).last() == (key@, tag@));
        match extract_xml_value(body, tag) {
            Some(v) => {
                let ghost found = fields_found(body@, fs.take(k as int));
                assert(fields_found(body@, fs.take(k + 1)) == found.push((key@, v@)));
                assert(found.push((key@, v@)).drop_last() == found);
                json_map_insert_string(&mut map, String::from_str(key), v);
            },
            None => {},
        }
        k = k + 1;
    }
    assert(fs.take(fields.len() as int) == fs);
    map
}

} // verus!

//! Decisions of the command-line front end: how errors map to exit codes,
//! which output format applies, when confirmation is needed, and how
//! key/value tables are laid out.
use vstd::prelude::*;

use crate::text::{
    chars_of, contains, push_char, push_range, str_contains, trim,
    trim_bounds,
};

verus! {

broadcast use vstd::string::group_string_axioms;

/// The kinds of failure the command line reports, each with its exit code.
#[derive(Debug, Clone, Copy, PartialEq, Eq, Structural)]
pub enum ErrorKind {
    Network,
    Auth,
    PermissionDenied,
    NotFound,
    General,
}

/// The kind of failure an error message describes.
pub open spec fn error_kind_of(msg: Seq<char>) -> ErrorKind {
    if contains(msg, "failed to reach NAS"@) || contains(msg, "error sending request"@) {
        ErrorKind::Network
    } else if contains(msg, "authentication failed"@) || contains(msg, "authPassed"@) || contains(
        msg,
        "Invalid login"@,
    ) {
        ErrorKind::Auth
    } else if contains(msg, "permission denied"@) {
        ErrorKind::PermissionDenied
    } else if contains(msg, "path not found"@) || contains(msg, "not found"@) {
        ErrorKind::NotFound
    } else {
        ErrorKind::General
    }
}

/// The name a kind of failure is reported under.
pub open spec fn kind_name(k: ErrorKind) -> Seq<char> {
    match k {
        ErrorKind::Network => "network_error"@,
        ErrorKind::Auth => "auth"@,
        ErrorKind::PermissionDenied => "permission_denied"@,
        ErrorKind::NotFound => "not_found"@,
        ErrorKind::General => "general"@,
    }
}

/// The exit code of a kind of failure.
pub open spec fn kind_exit_code(k: ErrorKind) -> i32 {
    match k {
        ErrorKind::Network => 5,
        ErrorKind::Auth => 4,
        ErrorKind::PermissionDenied => 3,
        ErrorKind::NotFound => 2,
        ErrorKind::General => 1,
    }
}

impl ErrorKind {
    /// The name this kind of failure is reported under.
    pub fn name(&self) -> (res: &'static str)
        ensures
            res@ == kind_name(*self),
    {
        match self {
            ErrorKind::Network => "network_error",
            ErrorKind::Auth => "auth",
            ErrorKind::PermissionDenied => "permission_denied",
            ErrorKind::NotFound => "not_found",
            ErrorKind::General => "general",
        }
    }

    /// The exit code of this kind of failure.
    pub fn exit_code(&self) -> (res: i32)
        ensures
            res == kind_exit_code(*self),
    {
        match self {
            ErrorKind::Network => 5,
            ErrorKind::Auth => 4,
            ErrorKind::PermissionDenied => 3,
            ErrorKind::NotFound => 2,
            ErrorKind::General => 1,
        }
    }
}

/// The kind of failure an error message describes.
pub fn classify_error(msg: &str) -> (res: ErrorKind)
    ensures
        res == error_kind_of(msg@),
{
    if str_contains(msg, "failed to reach NAS") || str_contains(msg, "error sending request") {
        ErrorKind::Network
    } else if str_contains(msg, "authentication failed") || str_contains(msg, "authPassed")
        || str_contains(msg, "Invalid login") {
        ErrorKind::Auth
    } else if str_contains(msg, "permission denied") {
        ErrorKind::PermissionDenied
    } else if str_contains(msg, "path not found") || str_contains(msg, "not found") {
        ErrorKind::NotFound
    } else {
        ErrorKind::General
    }
}

/// Map an error message to a kind string and exit code for scripting.
pub fn error_kind_and_code(msg: &str) -> (res: (&'static str, i32))
    ensures
        res.0@ == kind_name(error_kind_of(msg@)),
        res.1 == kind_exit_code(error_kind_of(msg@)),
{
    let k = classify_error(msg);
    (k.name(), k.exit_code())
}

/// The output format asked for on the command line.
#[derive(Debug, Clone, Copy, PartialEq, Eq, Structural)]
pub enum OutputFormat {
    /// JSON when standard output is not a terminal, text otherwise.
    Auto,
    Text,
    Json,
}

/// The format that applies: the hidden `--json` flag wins over `--output`.
pub fn effective_format(json: bool, output: OutputFormat) -> (res: OutputFormat)
    ensures
        res == (if json {
            OutputFormat::Json
        } else {
            output
        }),
{
    if json {
        OutputFormat::Json
    } else {
        output
    }
}

/// Whether a command writes JSON, given the format and whether standard
/// output is a terminal.
pub fn wants_json(format: OutputFormat, stdout_is_terminal: bool) -> (res: bool)
    ensures
        res == match format {
            OutputFormat::Json => true,
            OutputFormat::Text => false,
            OutputFormat::Auto => !stdout_is_terminal,
        },
{
    match format {
        OutputFormat::Json => true,
        OutputFormat::Text => false,
        OutputFormat::Auto => !stdout_is_terminal,
    }
}

/// The name an unconfirmed destructive operation is reported under.
pub fn confirmation_kind() -> (res: &'static str)
    ensures
        res@ == "confirmation_required"@,
{
    "confirmation_required"
}

/// The exit code of an unconfirmed destructive operation.
pub fn confirmation_exit_code() -> (res: i32)
    ensures
        res == 2,
{
    2
}

/// The refusal message for a destructive operation that was not confirmed:
/// needed when `--yes` was not given and standard input is not a terminal.
pub fn confirmation_refusal(operation: &str, yes: bool, stdin_is_terminal: bool) -> (res: Option<
    String,
>)
    ensures
        match res {
            None => yes || stdin_is_terminal,
            Some(m) => !yes && !stdin_is_terminal && m@ == operation@ + " requires confirmation"@,
        },
{
    if yes || stdin_is_terminal {
        return None;
    }
    let mut m = String::from_str(operation);
    m.append(" requires confirmation");
    Some(m)
}

/// `\x1b`, the escape character that starts a terminal colour sequence.
pub open spec fn escape_char() -> char {
    '\u{1b}'
}

/// The text of `s` without colour sequences (from an escape character up
/// to the next `m`), and whether `s` ends inside such a sequence.
pub open spec fn strip_ansi_state(s: Seq<char>) -> (Seq<char>, bool)
    decreases s.len(),
{
    if s.len() == 0 {
        (Seq::empty(), false)
    } else {
        let (out, in_escape) = strip_ansi_state(s.drop_last());
        let c = s.last();
        if c == escape_char() {
            (out, true)
        } else if in_escape {
            (out, c != 'm')
        } else {
            (out.push(c), false)
        }
    }
}

/// `s` without terminal colour sequences.
pub open spec fn strip_ansi_spec(s: Seq<char>) -> Seq<char> {
    strip_ansi_state(s).0
}

/// Strip terminal colour sequences (an escape character up to the next `m`).
pub fn strip_ansi(msg: &str) -> (res: String)
    ensures
        res@ == strip_ansi_spec(msg@),
{
    let v = chars_of(msg);
    let mut out = String::new();
    let mut in_escape = false;
    let mut k: usize = 0;
    while k < v.len()
        invariant
            k <= v.len(),
            (out@, in_escape) == strip_ansi_state(v@.take(k as int)),
        decreases v.len() - k,
    {
        let c = v[k];
        assert(v@.take(k + 1).drop_last() == v@.take(k as int));
        if c == '\u{1b}' {
            in_escape = true;
        } else if in_escape {
            if c == 'm' {
                in_escape = false;
            }
        } else {
            push_char(&mut out, c);
        }
        k = k + 1;
    }
    assert(v@.take(v.len() as int) == v@);
    out
}

/// The message of a command-line parse error: colour sequences removed,
/// surrounding white space trimmed.
pub fn clean_parse_error(msg: &str) -> (res: String)
    ensures
        res@ == trim(strip_ansi_spec(msg@)),
{
    let s = strip_ansi(msg);
    crate::text::trim_string(s.as_str())
}

/// No escape character survives `strip_ansi`.
pub proof fn law_strip_ansi_removes_escapes(s: Seq<char>)
    ensures
        forall|i: int|
            0 <= i < strip_ansi_spec(s).len() ==> #[trigger] strip_ansi_spec(s)[i] != escape_char(),
    decreases s.len(),
{
    if s.len() > 0 {
        law_strip_ansi_removes_escapes(s.drop_last());
        let prev = strip_ansi_spec(s.drop_last());
        let esc = strip_ansi_state(s.drop_last()).1;
        let out = strip_ansi_spec(s);
        let c = s.last();
        if !(c == escape_char() || esc) {
            assert(out == prev.push(c));
        }
        assert forall|i: int| 0 <= i < out.len() implies #[trigger] out[i] != escape_char() by {
            if i < prev.len() {
                assert(out[i] == prev[i]);
            }
        }
    }
}

/// Text without escape characters passes through `strip_ansi` unchanged.
pub proof fn law_strip_ansi_keeps_plain_text(s: Seq<char>)
    requires
        forall|i: int| 0 <= i < s.len() ==> #[trigger] s[i] != escape_char(),
    ensures
        strip_ansi_spec(s) == s,
        !strip_ansi_state(s).1,
    decreases s.len(),
{
    if s.len() > 0 {
        law_strip_ansi_keeps_plain_text(s.drop_last());
        assert(s.drop_last().push(s.last()) == s);
    }
}

/// `s` without trailing `/`, and its last `/`-separated segment.
pub open spec fn last_segment(s: Seq<char>) -> Seq<char>
    decreases s.len(),
{
    if s.len() == 0 || s.last() == '/' {
        Seq::empty()
    } else {
        last_segment(s.drop_last()).push(s.last())
    }
}

/// The local name a recursive download gets when none is given: the last
/// segment of the remote path, trailing `/` ignored.
pub open spec fn download_name_spec(remote: Seq<char>) -> Seq<char> {
    last_segment(crate::config::trim_end_slashes(remote))
}

/// The end of `v` once trailing `/` are dropped.
fn end_without_slashes(v: &Vec<char>) -> (res: usize)
    ensures
        res <= v.len(),
        v@.subrange(0, res as int) == crate::config::trim_end_slashes(v@),
{
    let mut end = v.len();
    assert(v@.subrange(0, end as int) == v@);
    while end > 0 && v[end - 1] == '/'
        invariant
            end <= v.len(),
            crate::config::trim_end_slashes(v@) == crate::config::trim_end_slashes(
                v@.subrange(0, end as int),
            ),
        decreases end,
    {
        assert(v@.subrange(0, end as int).drop_last() == v@.subrange(0, end - 1));
        end = end - 1;
    }
    end
}

/// Where the last `/`-separated segment of `v[..end]` starts.
fn last_segment_start(v: &Vec<char>, end: usize) -> (res: usize)
    requires
        end <= v.len(),
    ensures
        res <= end,
        last_segment(v@.subrange(0, end as int)) == v@.subrange(res as int, end as int),
{
    let ghost t = v@.subrange(0, end as int);
    let mut start = end;
    while start > 0 && v[start - 1] != '/'
        invariant
            start <= end <= v.len(),
            t == v@.subrange(0, end as int),
            last_segment(t) == last_segment(v@.subrange(0, start as int)) + v@.subrange(
                start as int,
                end as int,
            ),
        decreases start,
    {
        let ghost p = v@.subrange(0, start as int);
        assert(p.drop_last() == v@.subrange(0, start - 1));
        assert(v@.subrange(start - 1, end as int) == seq![p.last()] + v@.subrange(
            start as int,
            end as int,
        ));
        start = start - 1;
    }
    assert(last_segment(v@.subrange(0, start as int)) == Seq::<char>::empty());
    start
}

/// The local name a recursive download gets when none is given.
pub fn default_download_name(remote: &str) -> (res: String)
    ensures
        res@ == download_name_spec(remote@),
{
    let v = chars_of(remote);
    let end = end_without_slashes(&v);
    let start = last_segment_start(&v, end);
    let mut out = String::new();
    push_range(&mut out, &v, start, end);
    out
}

/// The widest key of a table, in UTF-8 bytes.
pub open spec fn max_key_len(pairs: Seq<(Seq<char>, Seq<char>)>) -> nat
    decreases pairs.len(),
{
    if pairs.len() == 0 {
        0
    } else {
        let rest = max_key_len(pairs.drop_last());
        let k = vstd::utf8::encode_utf8(pairs.last().0).len();
        if k > rest {
            k
        } else {
            rest
        }
    }
}

/// `n` spaces.
pub open spec fn spaces(n: nat) -> Seq<char> {
    Seq::new(n, |i: int| ' ')
}

/// `s` padded with spaces on the right to at least `w` characters.
pub open spec fn pad_right(s: Seq<char>, w: nat) -> Seq<char> {
    if s.len() < w {
        s + spaces((w - s.len()) as nat)
    } else {
        s
    }
}

/// One line of a key/value table: indented, keys padded to a common width.
pub open spec fn kv_line(key: Seq<char>, value: Seq<char>, width: nat) -> Seq<char> {
    seq![' ', ' '] + pad_right(key, width) + seq![' ', ' '] + value
}

/// Appends `s` padded with spaces to `width` characters.
fn push_padded(out: &mut String, s: &str, width: usize)
    ensures
        final(out)@ == old(out)@ + pad_right(s@, width as nat),
{
    let v = chars_of(s);
    push_range(out, &v, 0, v.len());
    assert(v@.subrange(0, v.len() as int) == v@);
    let mut n = v.len();
    let ghost base = out@;
    while n < width
        invariant
            v.len() <= n <= width || (n == v.len() && v.len() >= width),
            out@ == base + spaces((n - v.len()) as nat),
        decreases width - n,
    {
        push_char(out, ' ');
        assert(spaces((n + 1 - v.len()) as nat) == spaces((n - v.len()) as nat).push(' '));
        n = n + 1;
    }
    if v.len() >= width {
        assert(spaces(0) == Seq::<char>::empty());
    }
}

/// Lay out a key/value table: one line per pair, each key padded with spaces
/// to as many characters as the widest key has UTF-8 bytes.
pub fn kv_lines(pairs: &Vec<(String, String)>) -> (res: Vec<String>)
    ensures
        res.len() == pairs.len(),
        forall|i: int|
            0 <= i < res.len() ==> #[trigger] res[i]@ == kv_line(
                pairs.deep_view()[i].0,
                pairs.deep_view()[i].1,
                max_key_len(pairs.deep_view()),
            ),
{
    let ghost p = pairs.deep_view();
    let mut width: usize = 0;
    let mut k: usize = 0;
    while k < pairs.len()
        invariant
            k <= pairs.len(),
            p == pairs.deep_view(),
            width == max_key_len(p.take(k as int)),
        decreases pairs.len() - k,
    {
        let n = pairs[k].0.as_str().as_bytes().len();
        assert(p.take(k + 1).drop_last() == p.take(k as int));
        if n > width {
            width = n;
        }
        k = k + 1;
    }
    assert(p.take(pairs.len() as int) == p);
    let mut lines: Vec<String> = Vec::new();
    let mut i: usize = 0;
    while i < pairs.len()
        invariant
            i <= pairs.len(),
            p == pairs.deep_view(),
            width == max_key_len(p),
            lines.len() == i,
            forall|j: int| 0 <= j < i ==> #[trigger] lines[j]@ == kv_line(p[j].0, p[j].1, width as nat),
        decreases pairs.len() - i,
    {
        let mut line = String::new();
        push_char(&mut line, ' ');
        push_char(&mut line, ' ');
        push_padded(&mut line, pairs[i].0.as_str(), width);
        push_char(&mut line, ' ');
        push_char(&mut line, ' ');
        line.append(pairs[i].1.as_str());
        assert(line@ == kv_line(p[i as int].0, p[i as int].1, width as nat));
        lines.push(line);
        i = i + 1;
    }
    lines
}

/// The window `[offset, offset + limit)` of `len` items, clipped to the list.
pub open spec fn page_bounds(len: nat, limit: nat, offset: nat) -> (nat, nat) {
    let start = if offset < len {
        offset
    } else {
        len
    };
    let end = if offset + limit < len {
        offset + limit
    } else {
        len
    };
    (start, if end < start {
        start
    } else {
        end
    })
}

/// The items of one page: `limit` items after skipping `offset`.
pub fn paginate<T>(items: Vec<T>, limit: usize, offset: usize) -> (res: Vec<T>)
    ensures
        res@ == items@.subrange(
            page_bounds(items@.len(), limit as nat, offset as nat).0 as int,
            page_bounds(items@.len(), limit as nat, offset as nat).1 as int,
        ),
{
    let len = items.len();
    let start = if offset < len {
        offset
    } else {
        len
    };
    let end = if limit < len - start {
        start + limit
    } else {
        len
    };
    let ghost b = page_bounds(items@.len(), limit as nat, offset as nat);
    assert(start == b.0 && end == b.1);
    let mut all = items;
    let mut page: Vec<T> = all.split_off(start);
    page.truncate(end - start);
    page
}

/// The field names of a `--fields` list: separated by `,`, trimmed, empty
/// ones left out.
pub open spec fn field_names(s: Seq<char>) -> Seq<Seq<char>>
    decreases s.len(),
{
    match crate::text::find_from(s, seq![','], 0) {
        None => if trim(s).len() == 0 {
            Seq::empty()
        } else {
            seq![trim(s)]
        },
        Some(i) => {
            proof {
                crate::text::lemma_find_from(s, seq![','], 0);
            }
            let first = trim(s.take(i as int));
            let rest = field_names(s.skip(i + 1 as int));
            if first.len() == 0 {
                rest
            } else {
                seq![first] + rest
            }
        },
    }
}

/// The trimmed text `v[from..to]`.
fn trimmed_range(v: &Vec<char>, from: usize, to: usize) -> (res: String)
    requires
        from <= to <= v.len(),
    ensures
        res@ == trim(v@.subrange(from as int, to as int)),
{
    let mut part: Vec<char> = Vec::new();
    let mut k = from;
    while k < to
        invariant
            from <= k <= to <= v.len(),
            part@ == v@.subrange(from as int, k as int),
        decreases to - k,
    {
        part.push(v[k]);
        assert(v@.subrange(from as int, k + 1) == v@.subrange(from as int, k as int).push(
            v@[k as int],
        ));
        k = k + 1;
    }
    let (a, b) = trim_bounds(&part);
    crate::text::string_from_range(&part, a, b)
}

/// Split a `--fields` list into field names.
pub fn parse_field_list(list: &str) -> (res: Vec<String>)
    ensures
        res.deep_view() == field_names(list@),
{
    let v = chars_of(list);
    let mut comma: Vec<char> = Vec::new();
    comma.push(',');
    assert(comma@ == seq![',']);
    let mut res: Vec<String> = Vec::new();
    let mut pos: usize = 0;
    assert(v@.skip(0) == v@);
    loop
        invariant
            pos <= v.len(),
            v@ == list@,
            comma@ == seq![','],
            res.deep_view() + field_names(v@.skip(pos as int)) == field_names(list@),
        decreases v.len() - pos,
    {
        let ghost t = v@.skip(pos as int);
        proof {
            crate::text::lemma_find_in_suffix(v@, comma@, pos as nat);
        }
        match crate::text::find_chars(&v, &comma, pos) {
            None => {
                assert(t == v@.subrange(pos as int, v.len() as int));
                let part = trimmed_range(&v, pos, v.len());
                if !part.as_str().is_empty() {
                    res.push(part);
                }
                assert(res.deep_view() == field_names(list@));
                return res;
            },
            Some(i) => {
                proof {
                    crate::text::lemma_find_from(v@, comma@, pos as nat);
                }
                let ghost j = (i - pos) as nat;
                assert(t.take(j as int) == v@.subrange(pos as int, i as int));
                assert(t.skip(j + 1 as int) == v@.skip(i + 1 as int));
                let part = trimmed_range(&v, pos, i);
                let ghost before = res.deep_view();
                if !part.as_str().is_empty() {
                    res.push(part);
                    assert(res.deep_view() == before.push(part@));
                }
                assert(res.deep_view() + field_names(v@.skip(i + 1 as int)) == before
                    + field_names(t));
                pos = i + 1;
            },
        }
    }
}

/// Whether an object key is kept by a `--fields` selection: every key when
/// the selection is empty, else the keys it names.
pub open spec fn field_selected(fields: Seq<Seq<char>>, key: Seq<char>) -> bool {
    fields.len() == 0 || fields.contains(key)
}

/// Is `key` kept by the field selection `fields`?
pub fn field_wanted(fields: &Vec<String>, key: &str) -> (res: bool)
    ensures
        res == field_selected(fields.deep_view(), key@),
{
    if fields.len() == 0 {
        return true;
    }
    let mut k: usize = 0;
    while k < fields.len()
        invariant
            k <= fields.len(),
            forall|i: int| 0 <= i < k ==> fields.deep_view()[i] != key@,
        decreases fields.len() - k,
    {
        if crate::text::str_eq(fields[k].as_str(), key) {
            assert(fields.deep_view()[k as int] == key@);
            return true;
        }
        k = k + 1;
    }
    false
}

} // verus!

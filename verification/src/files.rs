//! File listings of the NAS file manager.
use vstd::prelude::*;

use crate::cli::spaces;
use crate::text::{chars_of, decimal, push_char, push_decimal, push_range};

verus! {

broadcast use vstd::string::group_string_axioms;

/// The message for a listing status other than success (`0`) or absent:
/// `5` is a missing path, `20` a refused one, other codes are reported as they are.
pub open spec fn list_status_message(status: Option<u64>, path: Seq<char>) -> Option<Seq<char>> {
    match status {
        None => None,
        Some(0) => None,
        Some(5) => Some("path not found: "@ + path),
        Some(20) => Some("permission denied: "@ + path),
        Some(code) => Some("error listing "@ + path + ": status="@ + decimal(code as nat)),
    }
}

/// The error a listing status stands for, as a message; `None` when the
/// listing succeeded.
pub fn check_list_status(status: Option<u64>, path: &str) -> (res: Option<String>)
    ensures
        res.deep_view() == list_status_message(status, path@),
{
    match status {
        None => None,
        Some(0) => None,
        Some(5) => {
            let mut m = String::from_str("path not found: ");
            m.append(path);
            Some(m)
        },
        Some(20) => {
            let mut m = String::from_str("permission denied: ");
            m.append(path);
            Some(m)
        },
        Some(code) => {
            let mut m = String::from_str("error listing ");
            m.append(path);
            m.append(": status=");
            push_decimal(&mut m, code);
            Some(m)
        },
    }
}

/// One entry of a directory listing, as the file manager reports it.
#[derive(Debug, Clone)]
pub struct FileEntry {
    pub filename: Option<String>,
    pub isfolder: Option<u8>,
    pub filesize: Option<String>,
    pub mt: Option<String>,
}

/// The model of a [`FileEntry`].
pub struct FileEntryView {
    pub filename: Option<Seq<char>>,
    pub isfolder: Option<u8>,
    pub filesize: Option<Seq<char>>,
    pub mt: Option<Seq<char>>,
}

impl View for FileEntry {
    type V = FileEntryView;

    open spec fn view(&self) -> FileEntryView {
        FileEntryView {
            filename: self.filename.deep_view(),
            isfolder: self.isfolder,
            filesize: self.filesize.deep_view(),
            mt: self.mt.deep_view(),
        }
    }
}

/// `v`, or `default` when there is no value.
pub open spec fn or_default(v: Option<Seq<char>>, default: Seq<char>) -> Seq<char> {
    match v {
        Some(x) => x,
        None => default,
    }
}

/// `s` padded with spaces on the left to at least `w` characters.
pub open spec fn pad_left(s: Seq<char>, w: nat) -> Seq<char> {
    if s.len() < w {
        spaces((w - s.len()) as nat) + s
    } else {
        s
    }
}

/// The line of a text listing: kind marker, size right-aligned to 12
/// characters, modification time, name.
pub open spec fn list_line_spec(e: FileEntryView) -> Seq<char> {
    seq![
        if e.isfolder == Some(1u8) {
            'd'
        } else {
            '-'
        },
        ' ',
    ] + pad_left(or_default(e.filesize, "-"@), 12) + seq![' ', ' '] + or_default(e.mt, "-"@)
        + seq![' ', ' '] + or_default(e.filename, "?"@)
}

/// Appends `s` padded with spaces on the left to `width` characters.
fn push_padded_left(out: &mut String, s: &str, width: usize)
    ensures
        final(out)@ == old(out)@ + pad_left(s@, width as nat),
{
    let v = chars_of(s);
    let ghost base = out@;
    let mut n = v.len();
    while n < width
        invariant
            v.len() <= n,
            n <= width || n == v.len(),
            out@ == base + spaces((n - v.len()) as nat),
        decreases width - n,
    {
        push_char(out, ' ');
        assert(spaces((n + 1 - v.len()) as nat) == spaces((n - v.len()) as nat).push(' '));
        n = n + 1;
    }
    push_range(out, &v, 0, v.len());
    assert(v@.subrange(0, v.len() as int) == v@);
    if v.len() >= width {
        assert(spaces(0) == Seq::<char>::empty());
    }
}

impl FileEntry {
    /// `"dir"` for folders, `"file"` otherwise.
    pub fn entry_type(&self) -> (res: &'static str)
        ensures
            res@ == (if self.isfolder == Some(1u8) {
                "dir"@
            } else {
                "file"@
            }),
    {
        if self.isfolder == Some(1u8) {
            "dir"
        } else {
            "file"
        }
    }

    /// The line of a text listing for this entry.
    pub fn list_line(&self) -> (res: String)
        ensures
            res@ == list_line_spec(self@),
    {
        let mut line = String::new();
        if self.isfolder == Some(1u8) {
            push_char(&mut line, 'd');
        } else {
            push_char(&mut line, '-');
        }
        push_char(&mut line, ' ');
        match &self.filesize {
            Some(s) => push_padded_left(&mut line, s.as_str(), 12),
            None => push_padded_left(&mut line, "-", 12),
        }
        push_char(&mut line, ' ');
        push_char(&mut line, ' ');
        match &self.mt {
            Some(s) => line.append(s.as_str()),
            None => line.append("-"),
        }
        push_char(&mut line, ' ');
        push_char(&mut line, ' ');
        match &self.filename {
            Some(s) => line.append(s.as_str()),
            None => line.append("?"),
        }
        line
    }
}

/// The closing line of a text listing: `"\n  {n} item(s)"`.
pub fn item_count_line(n: usize) -> (res: String)
    ensures
        res@ == seq!['\n', ' ', ' '] + decimal(n as nat) + " item(s)"@,
{
    let mut s = String::new();
    push_char(&mut s, '\n');
    push_char(&mut s, ' ');
    push_char(&mut s, ' ');
    push_decimal(&mut s, n as u64);
    s.append(" item(s)");
    s
}

/// Where the next page of a paged listing starts: after a full page, the
/// listing goes on at `start + page_size`; a short page is the last one.
pub fn next_page_start(start: usize, received: usize, page_size: usize) -> (res: Option<usize>)
    ensures
        res == (if received < page_size || start + page_size > usize::MAX {
            None::<usize>
        } else {
            Some((start + page_size) as usize)
        }),
{
    if received < page_size {
        None
    } else {
        start.checked_add(page_size)
    }
}

} // verus!

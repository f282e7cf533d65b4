//! Shared folders of the file manager.
use vstd::prelude::*;

use crate::text::{decimal, push_decimal};

verus! {

broadcast use vstd::string::group_string_axioms;

/// A shared folder as the `shares` command reports it.
#[derive(Debug, Clone)]
pub struct ShareOutput {
    pub name: String,
    pub path: String,
    pub items_count: Option<u64>,
}

/// A row of the text table of shares.
#[derive(Debug)]
pub struct ShareRow {
    pub name: String,
    pub path: String,
    pub items: String,
}

/// The items column: the count, or `-` when unknown.
pub open spec fn items_text(count: Option<u64>) -> Seq<char> {
    match count {
        Some(n) => decimal(n as nat),
        None => "-"@,
    }
}

/// The share that a file-manager tree node describes: its text is the name,
/// its id the path, its `real_total` the number of items.
pub fn share_output(id: String, text: String, real_total: Option<u64>) -> (res: ShareOutput)
    ensures
        res.name@ == text@,
        res.path@ == id@,
        res.items_count == real_total,
{
    ShareOutput { name: text, path: id, items_count: real_total }
}

/// The table row of a share.
pub fn share_row(share: &ShareOutput) -> (res: ShareRow)
    ensures
        res.name@ == share.name@,
        res.path@ == share.path@,
        res.items@ == items_text(share.items_count),
{
    let items = match share.items_count {
        Some(n) => {
            let mut s = String::new();
            push_decimal(&mut s, n);
            s
        },
        None => String::from_str("-"),
    };
    ShareRow { name: share.name.clone(), path: share.path.clone(), items }
}

} // verus!

//! Resource usage figures from the sysinfo document.
use vstd::prelude::*;

use crate::text::{chars_of, is_white_space, is_white_space_exec, push_char};

verus! {

broadcast use vstd::string::group_string_axioms;

/// Memory in use: total minus free, when both are known and free does not
/// exceed total.
pub open spec fn mem_used_spec(total: Option<u64>, free: Option<u64>) -> Option<u64> {
    match (total, free) {
        (Some(t), Some(f)) => if t >= f {
            Some((t - f) as u64)
        } else {
            None
        },
        _ => None,
    }
}

/// Memory in use, in MB.
pub fn mem_used_mb(total: Option<u64>, free: Option<u64>) -> (res: Option<u64>)
    ensures
        res == mem_used_spec(total, free),
{
    match (total, free) {
        (Some(t), Some(f)) => if t >= f {
            Some(t - f)
        } else {
            None
        },
        _ => None,
    }
}

/// `s` with every `%` and white-space character removed.
pub open spec fn without_percent_and_space(s: Seq<char>) -> Seq<char>
    decreases s.len(),
{
    if s.len() == 0 {
        Seq::empty()
    } else {
        let rest = without_percent_and_space(s.drop_last());
        let c = s.last();
        if c == '%' || is_white_space(c) {
            rest
        } else {
            rest.push(c)
        }
    }
}

/// The CPU usage text with its `%` signs and white space removed, ready to
/// be read as a number.
pub fn normalize_cpu_usage(value: &str) -> (res: String)
    ensures
        res@ == without_percent_and_space(value@),
{
    let v = chars_of(value);
    let mut out = String::new();
    let mut k: usize = 0;
    while k < v.len()
        invariant
            k <= v.len(),
            out@ == without_percent_and_space(v@.take(k as int)),
        decreases v.len() - k,
    {
        let c = v[k];
        assert(v@.take(k + 1).drop_last() == v@.take(k as int));
        if !(c == '%' || is_white_space_exec(c)) {
            push_char(&mut out, c);
        }
        k = k + 1;
    }
    assert(v@.take(v.len() as int) == v@);
    out
}

} // verus!

//! Character-level text utilities shared by the parsers.
//!
//! Texts are modelled as `Seq<char>`, the view of `str` and `String`.
use vstd::prelude::*;

verus! {

broadcast use vstd::string::group_string_axioms;

/// `pat` occurs in `s` starting at position `i`.
pub open spec fn matches_at(s: Seq<char>, pat: Seq<char>, i: int) -> bool {
    &&& 0 <= i
    &&& i + pat.len() <= s.len()
    &&& forall|k: int| 0 <= k < pat.len() ==> #[trigger] s[i + k] == pat[k]
}

/// The first position at or after `start` where `pat` occurs in `s`.
pub open spec fn find_from(s: Seq<char>, pat: Seq<char>, start: nat) -> Option<nat>
    decreases s.len() - start,
{
    if start + pat.len() > s.len() {
        None
    } else if matches_at(s, pat, start as int) {
        Some(start)
    } else {
        find_from(s, pat, start + 1)
    }
}

/// `pat` occurs somewhere in `s`.
pub open spec fn contains(s: Seq<char>, pat: Seq<char>) -> bool {
    find_from(s, pat, 0) is Some
}

/// `s` begins with `p`.
pub open spec fn has_prefix(s: Seq<char>, p: Seq<char>) -> bool {
    matches_at(s, p, 0)
}

/// What `find_from` returns, stated without recursion.
pub proof fn lemma_find_from(s: Seq<char>, pat: Seq<char>, start: nat)
    ensures
        match find_from(s, pat, start) {
            Some(i) => {
                &&& start <= i
                &&& matches_at(s, pat, i as int)
                &&& forall|j: int| start <= j < i ==> !matches_at(s, pat, j)
            },
            None => forall|j: int| start <= j ==> !matches_at(s, pat, j),
        },
    decreases s.len() - start,
{
    if start + pat.len() > s.len() {
    } else if matches_at(s, pat, start as int) {
    } else {
        lemma_find_from(s, pat, start + 1);
    }
}

/// A position that matches, with no match in `[start, i)`, is what `find_from` returns.
pub proof fn lemma_find_from_unique(s: Seq<char>, pat: Seq<char>, start: nat, i: nat)
    requires
        start <= i,
        matches_at(s, pat, i as int),
        forall|j: int| start <= j < i ==> !matches_at(s, pat, j),
    ensures
        find_from(s, pat, start) == Some(i),
    decreases i - start,
{
    if start < i {
        assert(!matches_at(s, pat, start as int));
        lemma_find_from_unique(s, pat, start + 1, i);
    }
}

/// With no match at or after `start`, `find_from` finds nothing.
pub proof fn lemma_find_from_none(s: Seq<char>, pat: Seq<char>, start: nat)
    requires
        forall|j: int| start <= j ==> !matches_at(s, pat, j),
    ensures
        find_from(s, pat, start) is None,
    decreases s.len() - start,
{
    if start + pat.len() <= s.len() {
        assert(!matches_at(s, pat, start as int));
        lemma_find_from_none(s, pat, start + 1);
    }
}

/// Copies the characters of `s` into a vector.
pub fn chars_of(s: &str) -> (res: Vec<char>)
    ensures
        res@ == s@,
{
    let mut res: Vec<char> = Vec::new();
    for c in it: s.chars()
        invariant
            res@ == it.seq().take(it.index() as int),
            it.seq() == s@,
    {
        res.push(c);
    }
    res
}

/// Does `pat` occur in `s` at position `i`?
pub fn matches_at_exec(s: &Vec<char>, pat: &Vec<char>, i: usize) -> (res: bool)
    ensures
        res == matches_at(s@, pat@, i as int),
{
    if pat.len() > s.len() || i > s.len() - pat.len() {
        return false;
    }
    let mut k: usize = 0;
    while k < pat.len()
        invariant
            k <= pat.len(),
            i + pat.len() <= s.len(),
            forall|m: int| 0 <= m < k ==> #[trigger] s@[i + m] == pat@[m],
        decreases pat.len() - k,
    {
        if s[i + k] != pat[k] {
            assert(s@[i + k as int] != pat@[k as int]);
            return false;
        }
        k = k + 1;
    }
    true
}

/// The first position at or after `start` where `pat` occurs in `s`.
pub fn find_chars(s: &Vec<char>, pat: &Vec<char>, start: usize) -> (res: Option<usize>)
    ensures
        match res {
            Some(i) => find_from(s@, pat@, start as nat) == Some(i as nat),
            None => find_from(s@, pat@, start as nat) is None,
        },
{
    if pat.len() > s.len() || start > s.len() - pat.len() {
        proof {
            assert forall|j: int| start <= j implies !matches_at(s@, pat@, j) by {}
            lemma_find_from_none(s@, pat@, start as nat);
        }
        return None;
    }
    let last = s.len() - pat.len();
    let mut i = start;
    while i <= last
        invariant
            start <= i,
            last == s.len() - pat.len(),
            pat.len() <= s.len(),
            forall|j: int| start <= j < i ==> !matches_at(s@, pat@, j),
        decreases last + 1 - i,
    {
        if matches_at_exec(s, pat, i) {
            proof {
                lemma_find_from_unique(s@, pat@, start as nat, i as nat);
            }
            return Some(i);
        }
        i = i + 1;
    }
    proof {
        assert forall|j: int| start <= j implies !matches_at(s@, pat@, j) by {}
        lemma_find_from_none(s@, pat@, start as nat);
    }
    None
}

/// Appends one character to a string.
#[verifier::external_body]
pub(crate) fn push_char(s: &mut String, c: char)
    ensures
        final(s)@ == old(s)@.push(c),
{
    s.push(c);
}

/// Builds a string from the characters `v[from..to]`.
pub fn string_from_range(v: &Vec<char>, from: usize, to: usize) -> (res: String)
    requires
        from <= to <= v.len(),
    ensures
        res@ == v@.subrange(from as int, to as int),
{
    let mut res = String::new();
    let mut k = from;
    while k < to
        invariant
            from <= k <= to,
            to <= v.len(),
            res@ == v@.subrange(from as int, k as int),
        decreases to - k,
    {
        push_char(&mut res, v[k]);
        assert(v@.subrange(from as int, k + 1) == v@.subrange(from as int, k as int).push(v@[k as int]));
        k = k + 1;
    }
    res
}

/// Appends the characters `v[from..to]` to `out`.
pub fn push_range(out: &mut String, v: &Vec<char>, from: usize, to: usize)
    requires
        from <= to <= v.len(),
    ensures
        final(out)@ == old(out)@ + v@.subrange(from as int, to as int),
{
    let mut k = from;
    while k < to
        invariant
            from <= k <= to,
            to <= v.len(),
            out@ == old(out)@ + v@.subrange(from as int, k as int),
        decreases to - k,
    {
        push_char(out, v[k]);
        assert(v@.subrange(from as int, k + 1) == v@.subrange(from as int, k as int).push(
            v@[k as int],
        ));
        k = k + 1;
    }
}

/// The characters that `str::trim` removes: the Unicode `White_Space` set.
pub open spec fn is_white_space(c: char) -> bool {
    let u = c as u32;
    ||| 0x09 <= u <= 0x0d
    ||| u == 0x20
    ||| u == 0x85
    ||| u == 0xa0
    ||| u == 0x1680
    ||| 0x2000 <= u <= 0x200a
    ||| u == 0x2028
    ||| u == 0x2029
    ||| u == 0x202f
    ||| u == 0x205f
    ||| u == 0x3000
}

/// `s` without leading white space.
pub open spec fn trim_start(s: Seq<char>) -> Seq<char>
    decreases s.len(),
{
    if s.len() > 0 && is_white_space(s[0]) {
        trim_start(s.drop_first())
    } else {
        s
    }
}

/// `s` without trailing white space.
pub open spec fn trim_end(s: Seq<char>) -> Seq<char>
    decreases s.len(),
{
    if s.len() > 0 && is_white_space(s.last()) {
        trim_end(s.drop_last())
    } else {
        s
    }
}

/// `s` without leading and trailing white space.
pub open spec fn trim(s: Seq<char>) -> Seq<char> {
    trim_end(trim_start(s))
}

/// Is `c` white space?
pub fn is_white_space_exec(c: char) -> (res: bool)
    ensures
        res == is_white_space(c),
{
    let u = c as u32;
    (0x09 <= u && u <= 0x0d) || u == 0x20 || u == 0x85 || u == 0xa0 || u == 0x1680 || (0x2000 <= u
        && u <= 0x200a) || u == 0x2028 || u == 0x2029 || u == 0x202f || u == 0x205f || u == 0x3000
}

/// The bounds of `v` without leading and trailing white space.
pub fn trim_bounds(v: &Vec<char>) -> (res: (usize, usize))
    ensures
        res.0 <= res.1 <= v.len(),
        v@.subrange(res.0 as int, res.1 as int) == trim(v@),
{
    let n = v.len();
    let mut a: usize = 0;
    assert(v@.subrange(0, n as int) == v@);
    while a < n && is_white_space_exec(v[a])
        invariant
            a <= n,
            n == v.len(),
            trim_start(v@) == trim_start(v@.subrange(a as int, n as int)),
        decreases n - a,
    {
        assert(v@.subrange(a as int, n as int).drop_first() == v@.subrange(a + 1, n as int));
        a = a + 1;
    }
    assert(trim_start(v@) == v@.subrange(a as int, n as int));
    let ghost t = v@.subrange(a as int, n as int);
    let mut b: usize = n;
    while b > a && is_white_space_exec(v[b - 1])
        invariant
            a <= b <= n,
            n == v.len(),
            t == v@.subrange(a as int, n as int),
            trim_end(t) == trim_end(v@.subrange(a as int, b as int)),
        decreases b - a,
    {
        assert(v@.subrange(a as int, b as int).drop_last() == v@.subrange(a as int, b - 1));
        b = b - 1;
    }
    (a, b)
}

/// `s` without leading and trailing white space.
pub fn trim_string(s: &str) -> (res: String)
    ensures
        res@ == trim(s@),
{
    let v = chars_of(s);
    let (a, b) = trim_bounds(&v);
    string_from_range(&v, a, b)
}

/// Is `c` an ASCII decimal digit?
pub open spec fn is_digit(c: char) -> bool {
    48 <= c as u32 <= 57
}

/// The value of the decimal digit `c`.
pub open spec fn digit_value(c: char) -> int {
    c as u32 - 48
}

/// The value of a sequence of decimal digits, most significant first.
pub open spec fn digits_value(d: Seq<char>) -> int
    decreases d.len(),
{
    if d.len() == 0 {
        0
    } else {
        digits_value(d.drop_last()) * 10 + digit_value(d.last())
    }
}

/// Every character of `d` is a decimal digit.
pub open spec fn all_digits(d: Seq<char>) -> bool {
    forall|i: int| 0 <= i < d.len() ==> is_digit(#[trigger] d[i])
}

/// The digits of an unsigned number, after an optional leading `+`.
pub open spec fn unsigned_digits(s: Seq<char>) -> Seq<char> {
    if s.len() > 0 && s[0] == '+' {
        s.drop_first()
    } else {
        s
    }
}

/// What `str::parse` makes of `s` for an unsigned integer type whose
/// largest value is `max`: an optional `+`, then at least one decimal
/// digit, and a value that fits.
pub open spec fn parse_unsigned(s: Seq<char>, max: int) -> Option<int> {
    let d = unsigned_digits(s);
    if d.len() > 0 && all_digits(d) && digits_value(d) <= max {
        Some(digits_value(d))
    } else {
        None
    }
}

/// A prefix of a digit sequence has no greater value than the whole.
proof fn lemma_digits_value_prefix(d: Seq<char>, k: int)
    requires
        all_digits(d),
        0 <= k <= d.len(),
    ensures
        0 <= digits_value(d.take(k)) <= digits_value(d),
    decreases d.len(),
{
    if k == d.len() {
        assert(d.take(k) == d);
        lemma_digits_value_nonneg(d);
    } else {
        let p = d.drop_last();
        lemma_digits_value_prefix(p, k);
        assert(p.take(k) == d.take(k));
        lemma_digits_value_nonneg(p);
    }
}

/// Digit sequences have non-negative values.
proof fn lemma_digits_value_nonneg(d: Seq<char>)
    requires
        all_digits(d),
    ensures
        digits_value(d) >= 0,
    decreases d.len(),
{
    if d.len() > 0 {
        lemma_digits_value_nonneg(d.drop_last());
    }
}

/// Parses `v[from..to]` as a `u64` the way `str::parse` does.
pub fn parse_u64_range(v: &Vec<char>, from: usize, to: usize) -> (res: Option<u64>)
    requires
        from <= to <= v.len(),
    ensures
        match res {
            Some(n) => parse_unsigned(v@.subrange(from as int, to as int), u64::MAX as int) == Some(
                n as int,
            ),
            None => parse_unsigned(v@.subrange(from as int, to as int), u64::MAX as int) is None,
        },
{
    let ghost s = v@.subrange(from as int, to as int);
    let mut k = from;
    if k < to && v[k] == '+' {
        k = k + 1;
    }
    let ghost d = v@.subrange(k as int, to as int);
    assert(unsigned_digits(s) == d);
    if k == to {
        return None;
    }
    let start = k;
    let mut value: u64 = 0;
    while k < to
        invariant
            from <= start <= k <= to <= v.len(),
            d == v@.subrange(start as int, to as int),
            s == v@.subrange(from as int, to as int),
            unsigned_digits(s) == d,
            all_digits(v@.subrange(start as int, k as int)),
            value == digits_value(v@.subrange(start as int, k as int)),
        decreases to - k,
    {
        let c = v[k];
        let u = c as u32;
        if !(48 <= u && u <= 57) {
            assert(d[k - start] == c);
            assert(!is_digit(d[k - start]));
            return None;
        }
        let digit = (u - 48) as u64;
        let ghost pre = v@.subrange(start as int, k as int);
        let ghost next = v@.subrange(start as int, k + 1);
        assert(next.drop_last() == pre);
        assert(next.last() == c);
        assert(all_digits(next));
        assert(digits_value(next) == value * 10 + digit);
        match value.checked_mul(10) {
            None => {
                proof {
                    assert(d.take(k + 1 - start) == next);
                    if all_digits(d) {
                        lemma_digits_value_prefix(d, k + 1 - start);
                    }
                }
                return None;
            },
            Some(t) => match t.checked_add(digit) {
                None => {
                    proof {
                        assert(d.take(k + 1 - start) == next);
                        if all_digits(d) {
                            lemma_digits_value_prefix(d, k + 1 - start);
                        }
                    }
                    return None;
                },
                Some(nv) => {
                    value = nv;
                },
            },
        }
        k = k + 1;
    }
    Some(value)
}

/// Parses `s`, surrounding white space removed, as a `u64`.
pub fn parse_trimmed_u64(s: &str) -> (res: Option<u64>)
    ensures
        match res {
            Some(n) => parse_unsigned(trim(s@), u64::MAX as int) == Some(n as int),
            None => parse_unsigned(trim(s@), u64::MAX as int) is None,
        },
{
    let v = chars_of(s);
    let (a, b) = trim_bounds(&v);
    parse_u64_range(&v, a, b)
}

/// The character of the decimal digit `d`.
pub open spec fn digit_char(d: nat) -> char {
    (d + 48) as char
}

/// The decimal representation of `n`, without leading zeros.
pub open spec fn decimal(n: nat) -> Seq<char>
    decreases n,
{
    if n < 10 {
        seq![digit_char(n)]
    } else {
        decimal(n / 10).push(digit_char(n % 10))
    }
}

/// Appends the decimal representation of `n` to `out`.
pub fn push_decimal(out: &mut String, n: u64)
    ensures
        final(out)@ == old(out)@ + decimal(n as nat),
    decreases n,
{
    if n >= 10 {
        push_decimal(out, n / 10);
    }
    let d = (n % 10) as u8;
    let c = (48u8 + d) as char;
    assert(c == digit_char((n % 10) as nat));
    push_char(out, c);
}

/// Finding in the suffix `s[a..]` is finding in `s` from `a` on.
pub proof fn lemma_find_in_suffix(s: Seq<char>, pat: Seq<char>, a: nat)
    requires
        a <= s.len(),
    ensures
        match find_from(s.skip(a as int), pat, 0) {
            Some(i) => find_from(s, pat, a) == Some(i + a),
            None => find_from(s, pat, a) is None,
        },
{
    let t = s.skip(a as int);
    assert forall|j: int| 0 <= j implies (matches_at(t, pat, j) <==> matches_at(s, pat, a + j)) by {
        if matches_at(t, pat, j) {
            assert forall|k: int| 0 <= k < pat.len() implies #[trigger] s[(a + j) + k] == pat[k] by {
                assert(t[j + k] == pat[k]);
            }
        }
        if matches_at(s, pat, a + j) {
            assert forall|k: int| 0 <= k < pat.len() implies #[trigger] t[j + k] == pat[k] by {
                assert(s[(a + j) + k] == pat[k]);
            }
        }
    }
    lemma_find_from(t, pat, 0);
    match find_from(t, pat, 0) {
        Some(i) => {
            assert forall|j: int| a <= j < a + i implies !matches_at(s, pat, j) by {
                assert(!matches_at(t, pat, j - a));
            }
            lemma_find_from_unique(s, pat, a, i + a);
        },
        None => {
            assert forall|j: int| a <= j implies !matches_at(s, pat, j) by {
                assert(!matches_at(t, pat, j - a));
            }
            lemma_find_from_none(s, pat, a);
        },
    }
}

/// The decimal representation of `n` is a non-empty run of digits whose value is `n`.
pub proof fn lemma_decimal_digits(n: nat)
    ensures
        decimal(n).len() >= 1,
        all_digits(decimal(n)),
        digits_value(decimal(n)) == n,
    decreases n,
{
    if n < 10 {
        let c = digit_char(n);
        assert(c as u32 == n + 48);
        assert(decimal(n).drop_last() == Seq::<char>::empty());
        assert(decimal(n).last() == c);
        assert(digits_value(decimal(n)) == digits_value(Seq::<char>::empty()) * 10 + digit_value(c));
    } else {
        lemma_decimal_digits(n / 10);
        let d = decimal(n);
        assert(d.drop_last() == decimal(n / 10));
        assert(digit_char(n % 10) as u32 == n % 10 + 48);
        assert(n == (n / 10) * 10 + n % 10);
        assert(d.last() == digit_char(n % 10));
        assert(digits_value(d) == digits_value(decimal(n / 10)) * 10 + digit_value(d.last()));
    }
}

/// Parsing the decimal representation of a number gives the number back.
pub proof fn law_parse_decimal_roundtrip(n: nat, max: int)
    requires
        n <= max,
    ensures
        parse_unsigned(decimal(n), max) == Some(n as int),
{
    lemma_decimal_digits(n);
    assert(is_digit(decimal(n)[0]));
}

/// Do `a` and `b` hold the same characters?
pub fn str_eq(a: &str, b: &str) -> (res: bool)
    ensures
        res == (a@ == b@),
{
    let x = chars_of(a);
    let y = chars_of(b);
    if x.len() != y.len() {
        return false;
    }
    let mut k: usize = 0;
    while k < x.len()
        invariant
            k <= x.len(),
            x.len() == y.len(),
            x@ == a@,
            y@ == b@,
            forall|m: int| 0 <= m < k ==> x@[m] == y@[m],
        decreases x.len() - k,
    {
        if x[k] != y[k] {
            assert(x@[k as int] != y@[k as int]);
            return false;
        }
        k = k + 1;
    }
    assert(x@ == y@);
    true
}

/// Parses `s`, surrounding white space removed, as a `usize`.
pub fn parse_trimmed_usize(s: &str) -> (res: Option<usize>)
    ensures
        match res {
            Some(n) => parse_unsigned(trim(s@), usize::MAX as int) == Some(n as int),
            None => parse_unsigned(trim(s@), usize::MAX as int) is None,
        },
{
    match parse_trimmed_u64(s) {
        Some(n) => if n <= usize::MAX as u64 {
            Some(n as usize)
        } else {
            None
        },
        None => None,
    }
}

/// Does `needle` occur in `hay`?
pub fn str_contains(hay: &str, needle: &str) -> (res: bool)
    ensures
        res == contains(hay@, needle@),
{
    let h = chars_of(hay);
    let n = chars_of(needle);
    match find_chars(&h, &n, 0) {
        Some(_) => true,
        None => false,
    }
}

} // verus!

//! Character-level helpers: digits, whitespace, splitting, and the
//! decimal and hexadecimal forms of numbers.
use vstd::prelude::*;

verus! {

/// ASCII whitespace, as `char::is_ascii_whitespace` defines it.
pub open spec fn is_space(c: char) -> bool {
    c == ' ' || c == '\t' || c == '\n' || c == '\r' || c == '\x0c'
}

pub open spec fn is_digit(c: char) -> bool {
    '0' <= c <= '9'
}

pub open spec fn digit_value(c: char) -> nat {
    (c as u32 - '0' as u32) as nat
}

/// Decimal value of a string of digits.
pub open spec fn digits_value(s: Seq<char>) -> nat
    decreases s.len(),
{
    if s.len() == 0 {
        0
    } else {
        digits_value(s.drop_last()) * 10 + digit_value(s.last())
    }
}

pub open spec fn all_digits(s: Seq<char>) -> bool {
    forall|i: int| 0 <= i < s.len() ==> is_digit(#[trigger] s[i])
}

/// The pieces of `s` between the occurrences of `sep`, left to right.
pub open spec fn split(s: Seq<char>, sep: char) -> Seq<Seq<char>>
    decreases s.len(),
{
    if s.len() == 0 {
        seq![Seq::empty()]
    } else {
        let prev = split(s.drop_last(), sep);
        if s.last() == sep {
            prev.push(Seq::empty())
        } else {
            prev.update(prev.len() - 1, prev.last().push(s.last()))
        }
    }
}

pub open spec fn trim_start(s: Seq<char>) -> Seq<char>
    decreases s.len(),
{
    if s.len() > 0 && is_space(s[0]) {
        trim_start(s.drop_first())
    } else {
        s
    }
}

pub open spec fn trim_end(s: Seq<char>) -> Seq<char>
    decreases s.len(),
{
    if s.len() > 0 && is_space(s.last()) {
        trim_end(s.drop_last())
    } else {
        s
    }
}

pub open spec fn trim(s: Seq<char>) -> Seq<char> {
    trim_end(trim_start(s))
}

/// A non-empty run of digits whose value fits `usize`.
pub open spec fn digits_opt(u: Seq<char>) -> Option<usize> {
    if u.len() > 0 && all_digits(u) && digits_value(u) <= usize::MAX {
        Some(digits_value(u) as usize)
    } else {
        None
    }
}

/// An integer token: digits with optional surrounding whitespace, whose value fits `usize`.
pub open spec fn parse_uint(t: Seq<char>) -> Option<usize> {
    digits_opt(trim(t))
}

/// Parsing as above, with 0 standing for anything that does not parse.
pub open spec fn parse_uint_or_zero(t: Seq<char>) -> usize {
    match parse_uint(t) {
        Some(v) => v,
        None => 0,
    }
}

/// `prefix` followed by a non-empty run of digits, such as `cpu12`: the number.
pub open spec fn numbered_name(name: Seq<char>, prefix: Seq<char>) -> Option<usize> {
    if prefix.len() <= name.len() && name.subrange(0, prefix.len() as int) == prefix {
        digits_opt(name.subrange(prefix.len() as int, name.len() as int))
    } else {
        None
    }
}

pub proof fn lemma_split_nonempty(s: Seq<char>, sep: char)
    ensures
        split(s, sep).len() >= 1,
    decreases s.len(),
{
    if s.len() > 0 {
        lemma_split_nonempty(s.drop_last(), sep);
    }
}

proof fn lemma_digits_value_prefix(s: Seq<char>, k: int)
    requires
        0 <= k <= s.len(),
    ensures
        digits_value(s.subrange(0, k)) <= digits_value(s),
    decreases s.len(),
{
    if k < s.len() {
        lemma_digits_value_prefix(s.drop_last(), k);
        assert(s.drop_last().subrange(0, k) =~= s.subrange(0, k));
    } else {
        assert(s.subrange(0, k) =~= s);
    }
}

pub fn chars_of(s: &str) -> (r: Vec<char>)
    ensures
        r@ == s@,
{
    let n = s.unicode_len();
    let mut r: Vec<char> = Vec::new();
    for i in 0..n
        invariant
            n == s@.len(),
            r@ == s@.subrange(0, i as int),
    {
        let c = s.get_char(i);
        r.push(c);
        assert(r@ =~= s@.subrange(0, i + 1));
    }
    assert(r@ =~= s@);
    r
}

pub fn split_chars(s: &Vec<char>, sep: char) -> (r: Vec<Vec<char>>)
    ensures
        r@.len() == split(s@, sep).len(),
        forall|i: int| 0 <= i < r@.len() ==> (#[trigger] r@[i])@ == split(s@, sep)[i],
{
    let mut r: Vec<Vec<char>> = Vec::new();
    let mut cur: Vec<char> = Vec::new();
    proof {
        assert(s@.subrange(0, 0) =~= Seq::<char>::empty());
    }
    for i in 0..s.len()
        invariant
            r@.len() + 1 == split(s@.subrange(0, i as int), sep).len(),
            forall|j: int|
                0 <= j < r@.len() ==> (#[trigger] r@[j])@ == split(
                    s@.subrange(0, i as int),
                    sep,
                )[j],
            cur@ == split(s@.subrange(0, i as int), sep).last(),
    {
        let ghost pre = s@.subrange(0, i as int);
        let ghost next = s@.subrange(0, i + 1);
        proof {
            assert(next.drop_last() =~= pre);
            lemma_split_nonempty(pre, sep);
        }
        let c = s[i];
        if c == sep {
            r.push(cur);
            cur = Vec::new();
            assert(cur@ =~= split(next, sep).last());
        } else {
            cur.push(c);
        }
    }
    proof {
        assert(s@.subrange(0, s@.len() as int) =~= s@);
        lemma_split_nonempty(s@, sep);
    }
    r.push(cur);
    r
}

/// Bounds of the trimmed part of `t`.
pub fn trim_bounds(t: &Vec<char>) -> (r: (usize, usize))
    ensures
        r.0 <= r.1 <= t@.len(),
        trim(t@) == t@.subrange(r.0 as int, r.1 as int),
{
    let n = t.len();
    let mut lo: usize = 0;
    assert(t@.subrange(0, n as int) =~= t@);
    while lo < n && (t[lo] == ' ' || t[lo] == '\t' || t[lo] == '\n' || t[lo] == '\r' || t[lo]
        == '\x0c')
        invariant
            lo <= n == t@.len(),
            trim_start(t@) == trim_start(t@.subrange(lo as int, n as int)),
        decreases n - lo,
    {
        assert(t@.subrange(lo as int, n as int).drop_first() =~= t@.subrange(lo + 1, n as int));
        lo = lo + 1;
    }
    let ghost u = t@.subrange(lo as int, n as int);
    assert(trim_start(t@) == u);
    let mut hi: usize = n;
    while hi > lo && (t[hi - 1] == ' ' || t[hi - 1] == '\t' || t[hi - 1] == '\n' || t[hi - 1]
        == '\r' || t[hi - 1] == '\x0c')
        invariant
            lo <= hi <= n == t@.len(),
            u == t@.subrange(lo as int, n as int),
            trim_end(u) == trim_end(t@.subrange(lo as int, hi as int)),
        decreases hi,
    {
        assert(t@.subrange(lo as int, hi as int).drop_last() =~= t@.subrange(
            lo as int,
            hi - 1,
        ));
        hi = hi - 1;
    }
    (lo, hi)
}

/// The number written by the digits `t[lo..hi]`, if they are a non-empty run of digits that fits.
pub fn digits_in(t: &Vec<char>, lo: usize, hi: usize) -> (r: Option<usize>)
    requires
        lo <= hi <= t@.len(),
    ensures
        r == digits_opt(t@.subrange(lo as int, hi as int)),
{
    let ghost u = t@.subrange(lo as int, hi as int);
    if lo == hi {
        return None;
    }
    let mut acc: usize = 0;
    let mut j: usize = lo;
    while j < hi
        invariant
            lo <= j <= hi <= t@.len(),
            u == t@.subrange(lo as int, hi as int),
            all_digits(t@.subrange(lo as int, j as int)),
            acc == digits_value(t@.subrange(lo as int, j as int)),
        decreases hi - j,
    {
        let ghost p = t@.subrange(lo as int, j + 1);
        assert(p.drop_last() =~= t@.subrange(lo as int, j as int));
        let c = t[j];
        if !('0' <= c && c <= '9') {
            assert(!is_digit(u[j - lo]));
            return None;
        }
        let d = (c as u32 - '0' as u32) as usize;
        let m = acc.checked_mul(10);
        let next = match m {
            Some(m) => m.checked_add(d),
            None => None,
        };
        match next {
            Some(v) => {
                acc = v;
            },
            None => {
                proof {
                    assert(u.subrange(0, j + 1 - lo) =~= p);
                    if all_digits(u) {
                        lemma_digits_value_prefix(u, j + 1 - lo);
                    }
                }
                return None;
            },
        }
        j = j + 1;
    }
    assert(t@.subrange(lo as int, j as int) =~= u);
    Some(acc)
}

pub fn parse_uint_chars(t: &Vec<char>) -> (r: Option<usize>)
    ensures
        r == parse_uint(t@),
{
    let (lo, hi) = trim_bounds(t);
    digits_in(t, lo, hi)
}

/// Reads a decimal number as a sysfs attribute holds it; 0 where it does not parse.
pub fn parse_id_or_zero(s: &str) -> (r: usize)
    ensures
        r == parse_uint_or_zero(s@),
{
    let cs = chars_of(s);
    match parse_uint_chars(&cs) {
        Some(v) => v,
        None => 0,
    }
}

/// The number in a directory name made of `prefix` and digits, such as `cpu3` or `node1`.
pub fn numbered_entry(name: &str, prefix: &str) -> (r: Option<usize>)
    ensures
        r == numbered_name(name@, prefix@),
{
    let n = chars_of(name);
    let p = chars_of(prefix);
    if p.len() > n.len() {
        return None;
    }
    let mut i: usize = 0;
    while i < p.len()
        invariant
            i <= p@.len() <= n@.len(),
            n@ == name@,
            p@ == prefix@,
            n@.subrange(0, i as int) == p@.subrange(0, i as int),
        decreases p@.len() - i,
    {
        if n[i] != p[i] {
            let ghost head = n@.subrange(0, p@.len() as int);
            assert(head[i as int] == n@[i as int]);
            assert(head != p@);
            return None;
        }
        assert(n@.subrange(0, i + 1) =~= p@.subrange(0, i + 1));
        i = i + 1;
    }
    assert(p@.subrange(0, p@.len() as int) =~= p@);
    digits_in(&n, p.len(), n.len())
}

/// `count` copies of `item`, separated by commas.
pub open spec fn repeat_csv(item: Seq<char>, count: nat) -> Seq<char>
    decreases count,
{
    if count == 0 {
        Seq::empty()
    } else if count == 1 {
        item
    } else {
        repeat_csv(item, (count - 1) as nat) + seq![','] + item
    }
}

/// Appends `count` copies of `item`, separated by commas, to `s`.
pub fn append_repeated(s: &mut String, item: &str, count: usize)
    ensures
        final(s)@ == old(s)@ + repeat_csv(item@, count as nat),
{
    let ghost head = s@;
    assert(head + repeat_csv(item@, 0) =~= head);
    for i in 0..count
        invariant
            s@ == head + repeat_csv(item@, i as nat),
    {
        if i > 0 {
            s.append(",");
        }
        s.append(item);
        proof {
            reveal_strlit(",");
        }
        assert(s@ =~= head + repeat_csv(item@, (i + 1) as nat));
    }
}

/// A count as a sysfs attribute holds it; 0 where it does not parse or
/// does not fit 32 bits.
pub open spec fn parse_u32_or_zero_spec(t: Seq<char>) -> u32 {
    match parse_uint(t) {
        Some(v) => if v <= u32::MAX {
            v as u32
        } else {
            0
        },
        None => 0,
    }
}

pub fn parse_u32_or_zero(s: &str) -> (r: u32)
    ensures
        r == parse_u32_or_zero_spec(s@),
{
    let cs = chars_of(s);
    match parse_uint_chars(&cs) {
        Some(v) => if v <= 0xffff_ffff {
            v as u32
        } else {
            0
        },
        None => 0,
    }
}

/// The digit characters, lowercase for values ten and above.
pub open spec fn digit_char(d: nat) -> char {
    seq!['0', '1', '2', '3', '4', '5', '6', '7', '8', '9', 'a', 'b', 'c', 'd', 'e', 'f'][d as int]
}

/// Decimal form of `n`, without leading zeros.
pub open spec fn dec_digits(n: nat) -> Seq<char>
    decreases n,
{
    if n < 10 {
        seq![digit_char(n)]
    } else {
        dec_digits(n / 10).push(digit_char(n % 10))
    }
}

/// Lowercase hexadecimal form of `n`, without leading zeros.
pub open spec fn hex_digits(n: nat) -> Seq<char>
    decreases n,
{
    if n < 16 {
        seq![digit_char(n)]
    } else {
        hex_digits(n / 16).push(digit_char(n % 16))
    }
}

/// Relies on std's `Display` for `usize`: decimal digits, no sign, no leading zeros.
#[verifier::external_body]
pub(crate) fn decimal_string(v: usize) -> (r: String)
    ensures
        r@ == dec_digits(v as nat),
{
    v.to_string()
}

/// Relies on std's `{:x}` format for `u64`: lowercase hexadecimal digits, no leading zeros.
#[verifier::external_body]
pub(crate) fn hex_string(v: u64) -> (r: String)
    ensures
        r@ == hex_digits(v as nat),
{
    format!("{:x}", v)
}

} // verus!

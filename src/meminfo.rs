//! Reading `meminfo` files: the per-node memory lines and the host's total.
use vstd::prelude::*;

use crate::text::{all_digits, chars_of, digits_in, digits_value, is_space, split, split_chars};

verus! {

/// `pat` occurs in `s` at position `i`.
pub open spec fn occurs_at(s: Seq<char>, pat: Seq<char>, i: int) -> bool {
    0 <= i && i + pat.len() <= s.len() && s.subrange(i, i + pat.len()) == pat
}

pub open spec fn has_substring(s: Seq<char>, pat: Seq<char>) -> bool {
    exists|i: int| #[trigger] occurs_at(s, pat, i)
}

/// The lines of `text` that mention `pat`, in order.
pub open spec fn lines_with(lines: Seq<Seq<char>>, pat: Seq<char>) -> Seq<Seq<char>>
    decreases lines.len(),
{
    if lines.len() == 0 {
        Seq::empty()
    } else {
        let r = lines_with(lines.drop_last(), pat);
        if has_substring(lines.last(), pat) {
            r.push(lines.last())
        } else {
            r
        }
    }
}

/// The memory lines of a node's `meminfo`: those that mention `MemTotal`.
pub open spec fn memory_lines(text: Seq<char>) -> Seq<Seq<char>> {
    lines_with(split(text, '\n'), "MemTotal"@)
}

/// Relies on std's `FromIterator<char>` for `String`: the characters, in order.
#[verifier::external_body]
fn string_of(cs: &Vec<char>) -> (r: String)
    ensures
        r@ == cs@,
{
    cs.iter().collect()
}

fn occurs_in(s: &Vec<char>, pat: &Vec<char>) -> (r: bool)
    ensures
        r == has_substring(s@, pat@),
{
    if pat.len() > s.len() {
        assert forall|i: int| !#[trigger] occurs_at(s@, pat@, i) by {}
        return false;
    }
    let slen = s.len();
    let last = slen - pat.len();
    let mut i: usize = 0;
    while i <= last
        invariant
            slen == s@.len(),
            last == s@.len() - pat@.len(),
            pat@.len() <= s@.len(),
            forall|k: int| 0 <= k < i ==> !#[trigger] occurs_at(s@, pat@, k),
        decreases last + 1 - i,
    {
        let mut j: usize = 0;
        let mut matching = true;
        while matching && j < pat.len()
            invariant
                slen == s@.len(),
                i <= last,
                i + pat@.len() <= s@.len(),
                last == s@.len() - pat@.len(),
                j <= pat@.len(),
                forall|m: int| 0 <= m < j ==> s@[i + m] == pat@[m],
                !matching ==> j < pat@.len() && s@[i + j] != pat@[j as int],
            decreases pat@.len() - j + if matching { 1int } else { 0int },
        {
            if s[i + j] == pat[j] {
                j = j + 1;
            } else {
                matching = false;
            }
        }
        if j == pat.len() {
            assert(s@.subrange(i as int, i + pat@.len()) =~= pat@);
            assert(occurs_at(s@, pat@, i as int));
            return true;
        }
        assert(!occurs_at(s@, pat@, i as int)) by {
            assert(s@.subrange(i as int, i + pat@.len())[j as int] == s@[i + j]);
        }
        if i == last {
            assert forall|k: int| !#[trigger] occurs_at(s@, pat@, k) by {
                if 0 <= k < i {
                } else if k == i {
                }
            }
            return false;
        }
        i = i + 1;
    }
    false
}

/// The lines of a node's `meminfo` that mention `MemTotal`, in order.
pub fn memtotal_lines(text: &str) -> (r: Vec<String>)
    ensures
        r@.len() == memory_lines(text@).len(),
        forall|k: int| 0 <= k < r@.len() ==> (#[trigger] r@[k])@ == memory_lines(text@)[k],
{
    let cs = chars_of(text);
    let lines = split_chars(&cs, '\n');
    let pat = chars_of("MemTotal");
    let ghost ls = split(text@, '\n');
    let mut out: Vec<String> = Vec::new();
    for k in 0..lines.len()
        invariant
            lines@.len() == ls.len(),
            forall|i: int| 0 <= i < lines@.len() ==> (#[trigger] lines@[i])@ == ls[i],
            pat@ == "MemTotal"@,
            out@.len() == lines_with(ls.subrange(0, k as int), pat@).len(),
            forall|i: int|
                0 <= i < out@.len() ==> (#[trigger] out@[i])@ == lines_with(
                    ls.subrange(0, k as int),
                    pat@,
                )[i],
    {
        let ghost sub = ls.subrange(0, k + 1);
        assert(sub.drop_last() =~= ls.subrange(0, k as int));
        assert(sub.last() == lines@[k as int]@);
        if occurs_in(&lines[k], &pat) {
            let line = string_of(&lines[k]);
            out.push(line);
        }
    }
    assert(ls.subrange(0, ls.len() as int) =~= ls);
    out
}

/// `s` without its leading run of non-space characters.
pub open spec fn skip_word(s: Seq<char>) -> Seq<char>
    decreases s.len(),
{
    if s.len() > 0 && !is_space(s[0]) {
        skip_word(s.drop_first())
    } else {
        s
    }
}

/// `s` without its leading whitespace.
pub open spec fn skip_space(s: Seq<char>) -> Seq<char>
    decreases s.len(),
{
    if s.len() > 0 && is_space(s[0]) {
        skip_space(s.drop_first())
    } else {
        s
    }
}

/// The leading run of non-space characters of `s`.
pub open spec fn first_word(s: Seq<char>) -> Seq<char>
    decreases s.len(),
{
    if s.len() > 0 && !is_space(s[0]) {
        seq![s[0]] + first_word(s.drop_first())
    } else {
        Seq::empty()
    }
}

/// The second whitespace-separated field of a line that starts with a word.
pub open spec fn second_field(line: Seq<char>) -> Seq<char> {
    first_word(skip_space(skip_word(line)))
}

/// The total in megabytes that a `MemTotal:` line gives in kilobytes.
pub open spec fn memtotal_of_line(line: Seq<char>) -> Option<u32> {
    let f = second_field(line);
    if line.len() >= 9 && line.subrange(0, 9) == "MemTotal:"@ && f.len() > 0 && all_digits(f)
        && digits_value(f) <= u32::MAX {
        Some((digits_value(f) / 1024) as u32)
    } else {
        None
    }
}

/// The first `MemTotal:` line that gives a total.
pub open spec fn memtotal_in(lines: Seq<Seq<char>>) -> Option<u32>
    decreases lines.len(),
{
    if lines.len() == 0 {
        None
    } else if memtotal_of_line(lines[0]) is Some {
        memtotal_of_line(lines[0])
    } else {
        memtotal_in(lines.drop_first())
    }
}

fn is_space_char(c: char) -> (r: bool)
    ensures
        r == is_space(c),
{
    c == ' ' || c == '\t' || c == '\n' || c == '\r' || c == '\x0c'
}

/// Bounds of the second field of `line`.
fn second_field_bounds(line: &Vec<char>) -> (r: (usize, usize))
    ensures
        r.0 <= r.1 <= line@.len(),
        second_field(line@) == line@.subrange(r.0 as int, r.1 as int),
{
    let n = line.len();
    let mut a: usize = 0;
    assert(line@.subrange(0, n as int) =~= line@);
    while a < n && !is_space_char(line[a])
        invariant
            a <= n == line@.len(),
            skip_word(line@) == skip_word(line@.subrange(a as int, n as int)),
        decreases n - a,
    {
        assert(line@.subrange(a as int, n as int).drop_first() =~= line@.subrange(a + 1, n as int));
        a = a + 1;
    }
    let mut b: usize = a;
    while b < n && is_space_char(line[b])
        invariant
            a <= b <= n == line@.len(),
            skip_word(line@) == line@.subrange(a as int, n as int),
            skip_space(skip_word(line@)) == skip_space(line@.subrange(b as int, n as int)),
        decreases n - b,
    {
        assert(line@.subrange(b as int, n as int).drop_first() =~= line@.subrange(b + 1, n as int));
        b = b + 1;
    }
    let mut c: usize = b;
    while c < n && !is_space_char(line[c])
        invariant
            b <= c <= n == line@.len(),
            skip_space(skip_word(line@)) == line@.subrange(b as int, n as int),
            first_word(line@.subrange(b as int, n as int)) == line@.subrange(b as int, c as int)
                + first_word(line@.subrange(c as int, n as int)),
        decreases n - c,
    {
        let ghost rest = line@.subrange(c as int, n as int);
        assert(rest.drop_first() =~= line@.subrange(c + 1, n as int));
        assert(line@.subrange(b as int, c as int) + seq![line@[c as int]] =~= line@.subrange(
            b as int,
            c + 1,
        ));
        assert(first_word(rest) == seq![rest[0]] + first_word(rest.drop_first()));
        c = c + 1;
    }
    assert(first_word(line@.subrange(c as int, n as int)) =~= Seq::<char>::empty());
    assert(line@.subrange(b as int, c as int) + Seq::<char>::empty() =~= line@.subrange(
        b as int,
        c as int,
    ));
    (b, c)
}

fn line_memtotal(line: &Vec<char>, prefix: &Vec<char>) -> (r: Option<u32>)
    requires
        prefix@ == "MemTotal:"@,
    ensures
        r == memtotal_of_line(line@),
{
    proof {
        reveal_strlit("MemTotal:");
    }
    if line.len() < 9 {
        return None;
    }
    let mut i: usize = 0;
    while i < 9
        invariant
            i <= 9 <= line@.len(),
            prefix@.len() == 9,
            prefix@ == "MemTotal:"@,
            line@.subrange(0, i as int) == prefix@.subrange(0, i as int),
        decreases 9 - i,
    {
        if line[i] != prefix[i] {
            assert(line@.subrange(0, 9)[i as int] != prefix@[i as int]);
            assert(line@.subrange(0, 9) != prefix@);
            return None;
        }
        assert(line@.subrange(0, i + 1) =~= prefix@.subrange(0, i + 1));
        i = i + 1;
    }
    assert(prefix@.subrange(0, 9) =~= prefix@);
    let (lo, hi) = second_field_bounds(line);
    match digits_in(line, lo, hi) {
        Some(v) => {
            if v <= 0xffff_ffff {
                Some((v / 1024) as u32)
            } else {
                None
            }
        },
        None => None,
    }
}

/// The host's total memory in megabytes, from `/proc/meminfo`: the
/// kilobytes of the first `MemTotal:` line that gives them, divided by 1024.
pub fn total_memory_mb(meminfo: &str) -> (r: Option<u32>)
    ensures
        r == memtotal_in(split(meminfo@, '\n')),
{
    let cs = chars_of(meminfo);
    let lines = split_chars(&cs, '\n');
    let prefix = chars_of("MemTotal:");
    let ghost ls = split(meminfo@, '\n');
    assert(ls.subrange(0, ls.len() as int) =~= ls);
    for k in 0..lines.len()
        invariant
            lines@.len() == ls.len(),
            forall|i: int| 0 <= i < lines@.len() ==> (#[trigger] lines@[i])@ == ls[i],
            prefix@ == "MemTotal:"@,
            ls == split(meminfo@, '\n'),
            memtotal_in(ls) == memtotal_in(ls.subrange(k as int, ls.len() as int)),
    {
        let ghost rest = ls.subrange(k as int, ls.len() as int);
        assert(rest.drop_first() =~= ls.subrange(k + 1, ls.len() as int));
        assert(rest[0] == lines@[k as int]@);
        match line_memtotal(&lines[k], &prefix) {
            Some(v) => {
                assert(memtotal_of_line(rest[0]) == Some(v));
                assert(memtotal_in(rest) == Some(v));
                assert(memtotal_in(ls) == Some(v));
                assert(ls == split(meminfo@, '\n'));
                return Some(v);
            },
            None => {},
        }
    }
    assert(ls.subrange(ls.len() as int, ls.len() as int) =~= Seq::<Seq<char>>::empty());
    None
}

} // verus!

//! The sysfs cpulist grammar: `LIST := RANGE (',' RANGE)*`,
//! `RANGE := INT | INT '-' INT`, with whitespace allowed around integers.
use vstd::prelude::*;

use crate::text::{chars_of, parse_uint, parse_uint_chars, split, split_chars};

verus! {

/// `a, a+1, ..., b`; empty when `a > b`.
pub open spec fn range_seq(a: usize, b: usize) -> Seq<usize> {
    Seq::new(if a <= b { (b - a + 1) as nat } else { 0 }, |i: int| (a + i) as usize)
}

/// What one comma-separated token contributes: a single integer, an inclusive
/// range, or nothing when the token is invalid.
pub open spec fn token_values(t: Seq<char>) -> Seq<usize> {
    let parts = split(t, '-');
    if parts.len() == 1 {
        match parse_uint(t) {
            Some(v) => seq![v],
            None => Seq::empty(),
        }
    } else if parts.len() == 2 {
        match (parse_uint(parts[0]), parse_uint(parts[1])) {
            (Some(a), Some(b)) => range_seq(a, b),
            _ => Seq::empty(),
        }
    } else {
        Seq::empty()
    }
}

/// The values of a sequence of tokens, concatenated in order.
pub open spec fn tokens_values(ts: Seq<Seq<char>>) -> Seq<usize>
    decreases ts.len(),
{
    if ts.len() == 0 {
        Seq::empty()
    } else {
        tokens_values(ts.drop_last()) + token_values(ts.last())
    }
}

/// The CPU numbers that a cpulist string denotes, in the order listed.
pub open spec fn cpu_list_values(s: Seq<char>) -> Seq<usize> {
    tokens_values(split(s, ','))
}

fn push_range(out: &mut Vec<usize>, a: usize, b: usize)
    ensures
        final(out)@ == old(out)@ + range_seq(a, b),
{
    let ghost pre = out@;
    if a > b {
        assert(range_seq(a, b) =~= Seq::<usize>::empty());
        assert(pre + range_seq(a, b) =~= pre);
        return;
    }
    let mut i: usize = a;
    loop
        invariant_except_break
            out@ == pre + Seq::new((i - a) as nat, |k: int| (a + k) as usize),
        invariant
            a <= i <= b,
        ensures
            out@ == pre + range_seq(a, b),
        decreases b - i,
    {
        out.push(i);
        if i == b {
            assert(out@ =~= pre + range_seq(a, b));
            break;
        }
        i = i + 1;
        assert(out@ =~= pre + Seq::new((i - a) as nat, |k: int| (a + k) as usize));
    }
}

fn append_token_values(out: &mut Vec<usize>, t: &Vec<char>)
    ensures
        final(out)@ == old(out)@ + token_values(t@),
{
    let parts = split_chars(t, '-');
    if parts.len() == 1 {
        match parse_uint_chars(t) {
            Some(v) => {
                out.push(v);
            },
            None => {
                assert(old(out)@ + Seq::<usize>::empty() =~= old(out)@);
            },
        }
    } else if parts.len() == 2 {
        let a = parse_uint_chars(&parts[0]);
        let b = parse_uint_chars(&parts[1]);
        match (a, b) {
            (Some(a), Some(b)) => {
                push_range(out, a, b);
            },
            _ => {
                assert(old(out)@ + Seq::<usize>::empty() =~= old(out)@);
            },
        }
    } else {
        assert(old(out)@ + Seq::<usize>::empty() =~= old(out)@);
    }
}

/// Parses a cpulist such as `"0-3,5,7-9"` into the CPU numbers it lists, in
/// order and with repetitions kept; invalid tokens contribute nothing.
pub fn parse_cpu_list(list: &str) -> (r: Vec<usize>)
    ensures
        r@ == cpu_list_values(list@),
{
    let cs = chars_of(list);
    let tokens = split_chars(&cs, ',');
    let ghost ts = split(cs@, ',');
    let mut out: Vec<usize> = Vec::new();
    for k in 0..tokens.len()
        invariant
            tokens@.len() == ts.len(),
            forall|i: int| 0 <= i < tokens@.len() ==> (#[trigger] tokens@[i])@ == ts[i],
            out@ == tokens_values(ts.subrange(0, k as int)),
    {
        append_token_values(&mut out, &tokens[k]);
        assert(ts.subrange(0, k + 1).drop_last() =~= ts.subrange(0, k as int));
    }
    assert(ts.subrange(0, tokens@.len() as int) =~= ts);
    out
}

} // verus!

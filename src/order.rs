//! Lexicographic order on names and paths, and sorting by it.
use vstd::prelude::*;
use crate::text::{lines_view, push_line, extend_lines};

verus! {

/// `a` comes before `b`, or equals it, comparing characters by code point.
pub open spec fn lex_le(a: Seq<char>, b: Seq<char>) -> bool
    decreases a.len(),
{
    if a.len() == 0 {
        true
    } else if b.len() == 0 {
        false
    } else if a[0] != b[0] {
        (a[0] as u32) < (b[0] as u32)
    } else {
        lex_le(a.skip(1), b.skip(1))
    }
}

/// The first index from `k` on whose element does not come before `x`.
pub open spec fn insert_pos(s: Seq<Seq<char>>, x: Seq<char>, k: int) -> int
    decreases s.len() - k,
{
    if k < 0 || k >= s.len() {
        s.len() as int
    } else if lex_le(x, s[k]) {
        k
    } else {
        insert_pos(s, x, k + 1)
    }
}

pub open spec fn insert_sorted(s: Seq<Seq<char>>, x: Seq<char>) -> Seq<Seq<char>> {
    let k = insert_pos(s, x, 0);
    s.take(k) + seq![x] + s.skip(k)
}

/// `s` in ascending order, equal elements keeping their relative order.
pub open spec fn sorted(s: Seq<Seq<char>>) -> Seq<Seq<char>>
    decreases s.len(),
{
    if s.len() == 0 {
        seq![]
    } else {
        insert_sorted(sorted(s.drop_last()), s.last())
    }
}

pub proof fn lemma_sorted_len(s: Seq<Seq<char>>)
    ensures
        sorted(s).len() == s.len(),
    decreases s.len(),
{
    if s.len() > 0 {
        lemma_sorted_len(s.drop_last());
        lemma_insert_pos(sorted(s.drop_last()), s.last(), 0);
    }
}

proof fn lemma_insert_pos(s: Seq<Seq<char>>, x: Seq<char>, k: int)
    requires
        0 <= k,
    ensures
        k <= s.len() ==> k <= insert_pos(s, x, k) <= s.len(),
        k > s.len() ==> insert_pos(s, x, k) == s.len(),
    decreases s.len() - k,
{
    if k < s.len() && !lex_le(x, s[k]) {
        lemma_insert_pos(s, x, k + 1);
    }
}

pub fn lex_le_exec(a: &Vec<char>, b: &Vec<char>) -> (r: bool)
    ensures
        r == lex_le(a@, b@),
{
    let mut i: usize = 0;
    assert(a@.skip(0) =~= a@ && b@.skip(0) =~= b@);
    while i < a.len()
        invariant
            i <= a.len(),
            i <= b.len(),
            a@.take(i as int) == b@.take(i as int),
            lex_le(a@, b@) == lex_le(a@.skip(i as int), b@.skip(i as int)),
        decreases a.len() - i,
    {
        if i >= b.len() {
            return false;
        }
        if a[i] != b[i] {
            return (a[i] as u32) < (b[i] as u32);
        }
        assert(a@.skip(i as int).skip(1) =~= a@.skip(i + 1));
        assert(b@.skip(i as int).skip(1) =~= b@.skip(i + 1));
        assert(a@.take(i + 1) =~= b@.take(i + 1)) by {
            assert(a@.take(i + 1) =~= a@.take(i as int).push(a@[i as int]));
            assert(b@.take(i + 1) =~= b@.take(i as int).push(b@[i as int]));
        }
        i += 1;
    }
    true
}

pub fn sort_exec(v: &Vec<Vec<char>>) -> (r: Vec<Vec<char>>)
    ensures
        lines_view(r@) == sorted(lines_view(v@)),
{
    let ghost s = lines_view(v@);
    let mut r: Vec<Vec<char>> = Vec::new();
    let mut i: usize = 0;
    while i < v.len()
        invariant
            i <= v.len(),
            s == lines_view(v@),
            lines_view(r@) == sorted(s.take(i as int)),
        decreases v.len() - i,
    {
        assert(s.take(i + 1).drop_last() =~= s.take(i as int));
        let ghost cur = lines_view(r@);
        let mut k: usize = 0;
        while k < r.len() && !lex_le_exec(&v[i], &r[k])
            invariant
                k <= r.len(),
                i < v.len(),
                s == lines_view(v@),
                cur == lines_view(r@),
                insert_pos(cur, s[i as int], 0) == insert_pos(cur, s[i as int], k as int),
            decreases r.len() - k,
        {
            k += 1;
        }
        let mut next: Vec<Vec<char>> = Vec::new();
        extend_lines(&mut next, &r, 0, k);
        push_line(&mut next, &v[i]);
        extend_lines(&mut next, &r, k, r.len());
        assert(lines_view(next@) =~= insert_sorted(cur, s[i as int]));
        r = next;
        i += 1;
    }
    assert(s.take(v.len() as int) =~= s);
    r
}

} // verus!

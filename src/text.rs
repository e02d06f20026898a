//! Character-level text anchors: searching, trimming, replacing and
//! splitting a document into lines, each with a specification over `Seq<char>`.
use vstd::prelude::*;

verus! {

/// Unicode `White_Space`, the set that `str::trim` removes.
pub open spec fn is_ws(c: char) -> bool {
    let n = c as u32;
    (9 <= n && n <= 13) || n == 32 || n == 0x85 || n == 0xa0 || n == 0x1680 || (0x2000 <= n
        && n <= 0x200a) || n == 0x2028 || n == 0x2029 || n == 0x202f || n == 0x205f || n == 0x3000
}

/// `p` occurs in `s` starting at index `i`.
pub open spec fn matches_at(s: Seq<char>, p: Seq<char>, i: int) -> bool {
    0 <= i && i + p.len() <= s.len() && s.subrange(i, i + p.len()) == p
}

pub open spec fn contains(s: Seq<char>, p: Seq<char>) -> bool {
    exists|i: int| matches_at(s, p, i)
}

pub open spec fn starts_with(s: Seq<char>, p: Seq<char>) -> bool {
    matches_at(s, p, 0)
}

pub open spec fn ends_with(s: Seq<char>, p: Seq<char>) -> bool {
    matches_at(s, p, s.len() - p.len())
}

/// The first index at or after `from` where `p` occurs in `s`.
pub open spec fn find_from(s: Seq<char>, p: Seq<char>, from: int) -> Option<int>
    decreases s.len() + 1 - from,
{
    if from < 0 || from + p.len() > s.len() {
        None
    } else if matches_at(s, p, from) {
        Some(from)
    } else {
        find_from(s, p, from + 1)
    }
}

/// The number of whitespace characters that `s` starts with.
pub open spec fn leading_ws(s: Seq<char>) -> nat
    decreases s.len(),
{
    if s.len() > 0 && is_ws(s[0]) {
        1 + leading_ws(s.skip(1))
    } else {
        0
    }
}

/// The number of whitespace characters that `s` ends with.
pub open spec fn trailing_ws(s: Seq<char>) -> nat
    decreases s.len(),
{
    if s.len() > 0 && is_ws(s.last()) {
        1 + trailing_ws(s.drop_last())
    } else {
        0
    }
}

pub open spec fn trim_start(s: Seq<char>) -> Seq<char> {
    s.skip(leading_ws(s) as int)
}

pub open spec fn trim(s: Seq<char>) -> Seq<char> {
    let t = trim_start(s);
    t.take(t.len() - trailing_ws(t))
}

/// `s` from `from` on, with every occurrence of `p` (left to right, not
/// overlapping) replaced by `r`.
pub open spec fn replace_from(s: Seq<char>, p: Seq<char>, r: Seq<char>, from: int) -> Seq<char>
    decreases s.len() - from,
{
    if p.len() == 0 || from < 0 || from > s.len() {
        s.skip(from)
    } else {
        match find_from(s, p, from) {
            Some(i) => if from <= i && i + p.len() <= s.len() {
                s.subrange(from, i) + r + replace_from(s, p, r, i + p.len())
            } else {
                s.skip(from)
            },
            None => s.skip(from),
        }
    }
}

/// What `str::replace` returns: every occurrence of `p` in `s` replaced by `r`.
pub open spec fn replace_all(s: Seq<char>, p: Seq<char>, r: Seq<char>) -> Seq<char> {
    replace_from(s, p, r, 0)
}

pub open spec fn newline() -> Seq<char> {
    seq!['\n']
}

/// The lines of `s` from index `from` on: the pieces between newlines, the
/// last one possibly empty, so that joining them back gives the text unchanged.
pub open spec fn lines_from(s: Seq<char>, from: int) -> Seq<Seq<char>>
    decreases s.len() - from,
{
    if from < 0 || from > s.len() {
        seq![]
    } else {
        match find_from(s, newline(), from) {
            Some(i) => if from <= i < s.len() {
                seq![s.subrange(from, i)] + lines_from(s, i + 1)
            } else {
                seq![s.skip(from)]
            },
            None => seq![s.skip(from)],
        }
    }
}

pub open spec fn split_lines(s: Seq<char>) -> Seq<Seq<char>> {
    lines_from(s, 0)
}

/// The lines joined with a newline between each two.
pub open spec fn join_lines(ls: Seq<Seq<char>>) -> Seq<char>
    decreases ls.len(),
{
    if ls.len() == 0 {
        seq![]
    } else if ls.len() == 1 {
        ls[0]
    } else {
        join_lines(ls.drop_last()) + newline() + ls.last()
    }
}

pub open spec fn lines_view(v: Seq<Vec<char>>) -> Seq<Seq<char>> {
    v.map_values(|l: Vec<char>| l@)
}

pub proof fn lemma_find_from(s: Seq<char>, p: Seq<char>, from: int)
    requires
        0 <= from,
    ensures
        match find_from(s, p, from) {
            Some(i) => from <= i && matches_at(s, p, i) && forall|j: int|
                from <= j < i ==> !matches_at(s, p, j),
            None => forall|j: int| from <= j ==> !matches_at(s, p, j),
        },
    decreases s.len() + 1 - from,
{
    if from + p.len() > s.len() {
    } else if matches_at(s, p, from) {
    } else {
        lemma_find_from(s, p, from + 1);
    }
}


/// Relies on `String::push`: appends one character.
#[verifier::external_body]
fn push_char(s: &mut String, c: char)
    ensures
        final(s)@ == old(s)@.push(c),
{
    s.push(c);
}

/// The characters of `s`, in order.
pub fn chars_of(s: &str) -> (r: Vec<char>)
    ensures
        r@ == s@,
{
    let mut r: Vec<char> = Vec::new();
    for c in it: s.chars()
        invariant
            r@ == it.seq().take(it.index() as int),
    {
        r.push(c);
    }
    r
}

/// A `String` holding the characters of `v`.
pub fn string_of(v: &Vec<char>) -> (r: String)
    ensures
        r@ == v@,
{
    let mut r = String::new();
    let mut i: usize = 0;
    while i < v.len()
        invariant
            i <= v.len(),
            r@ == v@.take(i as int),
        decreases v.len() - i,
    {
        push_char(&mut r, v[i]);
        assert(v@.take(i as int).push(v@[i as int]) =~= v@.take(i + 1));
        i += 1;
    }
    assert(v@.take(v.len() as int) =~= v@);
    r
}

pub fn is_ws_char(c: char) -> (b: bool)
    ensures
        b == is_ws(c),
{
    let n = c as u32;
    (9 <= n && n <= 13) || n == 32 || n == 0x85 || n == 0xa0 || n == 0x1680 || (0x2000 <= n
        && n <= 0x200a) || n == 0x2028 || n == 0x2029 || n == 0x202f || n == 0x205f || n == 0x3000
}

pub fn matches_at_exec(s: &Vec<char>, p: &Vec<char>, i: usize) -> (b: bool)
    ensures
        b == matches_at(s@, p@, i as int),
{
    if i > s.len() || p.len() > s.len() - i {
        return false;
    }
    let mut k: usize = 0;
    while k < p.len()
        invariant
            i + p.len() <= s.len(),
            k <= p.len(),
            forall|j: int| 0 <= j < k ==> s@[i + j] == p@[j],
        decreases p.len() - k,
    {
        if s[i + k] != p[k] {
            assert(s@.subrange(i as int, i + p.len())[k as int] != p@[k as int]);
            return false;
        }
        k += 1;
    }
    assert(s@.subrange(i as int, i + p.len()) =~= p@);
    true
}

pub fn find_exec(s: &Vec<char>, p: &Vec<char>, from: usize) -> (r: Option<usize>)
    ensures
        r matches Some(i) ==> find_from(s@, p@, from as int) == Some(i as int),
        r is None ==> find_from(s@, p@, from as int) is None,
{
    if from > s.len() || p.len() > s.len() - from {
        return None;
    }
    if p.len() == 0 {
        assert(s@.subrange(from as int, from as int) =~= p@);
        return Some(from);
    }
    let mut i = from;
    let last = s.len() - p.len();
    while i <= last
        invariant
            from <= i,
            p.len() > 0,
            last == s.len() - p.len(),
            last < s.len(),
            i <= last + 1,
            find_from(s@, p@, from as int) == find_from(s@, p@, i as int),
        decreases s.len() - i,
    {
        if matches_at_exec(s, p, i) {
            return Some(i);
        }
        i += 1;
    }
    None
}

pub fn contains_exec(s: &Vec<char>, p: &Vec<char>) -> (b: bool)
    ensures
        b == contains(s@, p@),
{
    let r = find_exec(s, p, 0);
    proof {
        lemma_find_from(s@, p@, 0);
    }
    r.is_some()
}

pub fn starts_with_exec(s: &Vec<char>, p: &Vec<char>) -> (b: bool)
    ensures
        b == starts_with(s@, p@),
{
    matches_at_exec(s, p, 0)
}

/// Whether `p` occurs in `s` ending exactly at index `end`.
pub fn ends_at_exec(s: &Vec<char>, p: &Vec<char>, end: usize) -> (b: bool)
    requires
        end <= s.len(),
    ensures
        b == matches_at(s@, p@, end - p.len()),
{
    if p.len() > end {
        false
    } else {
        matches_at_exec(s, p, end - p.len())
    }
}

proof fn lemma_leading_ws_skip(s: Seq<char>, i: int)
    requires
        0 <= i <= s.len(),
        forall|j: int| 0 <= j < i ==> is_ws(s[j]),
    ensures
        leading_ws(s) == i + leading_ws(s.skip(i)),
    decreases i,
{
    if i > 0 {
        assert(is_ws(s[0]));
        assert(s.skip(1).skip(i - 1) =~= s.skip(i));
        lemma_leading_ws_skip(s.skip(1), i - 1);
    } else {
        assert(s.skip(0) =~= s);
    }
}

proof fn lemma_trailing_ws_take(s: Seq<char>, i: int)
    requires
        0 <= i <= s.len(),
        forall|j: int| i <= j < s.len() ==> is_ws(s[j]),
    ensures
        trailing_ws(s) == (s.len() - i) + trailing_ws(s.take(i)),
    decreases s.len() - i,
{
    if i < s.len() {
        assert(is_ws(s[s.len() - 1]));
        assert(s.drop_last().take(i) =~= s.take(i));
        lemma_trailing_ws_take(s.drop_last(), i);
    } else {
        assert(s.take(i) =~= s);
    }
}

/// The index where `trim_start(s)` begins.
pub fn leading_ws_exec(s: &Vec<char>) -> (n: usize)
    ensures
        n == leading_ws(s@),
        n <= s.len(),
{
    let mut i: usize = 0;
    while i < s.len() && is_ws_char(s[i])
        invariant
            i <= s.len(),
            forall|j: int| 0 <= j < i ==> is_ws(s@[j]),
        decreases s.len() - i,
    {
        i += 1;
    }
    proof {
        lemma_leading_ws_skip(s@, i as int);
        assert(leading_ws(s@.skip(i as int)) == 0);
    }
    i
}

/// The bounds `(a, b)` of `trim(s)` within `s`.
pub fn trim_bounds(s: &Vec<char>) -> (r: (usize, usize))
    ensures
        r.0 <= r.1 <= s.len(),
        r.0 == leading_ws(s@),
        s@.subrange(r.0 as int, r.1 as int) == trim(s@),
{
    let a = leading_ws_exec(s);
    let mut b: usize = s.len();
    while b > a && is_ws_char(s[b - 1])
        invariant
            a <= b <= s.len(),
            forall|j: int| b <= j < s.len() ==> is_ws(s@[j]),
        decreases b,
    {
        b -= 1;
    }
    proof {
        let t = s@.skip(a as int);
        let k = b - a;
        lemma_trailing_ws_take(t, k);
        assert(t.take(k) =~= s@.subrange(a as int, b as int));
        if k > 0 {
            assert(t.take(k).last() == s@[b - 1]);
        }
        assert(trailing_ws(t.take(k)) == 0);
        assert(t.take(t.len() - trailing_ws(t)) =~= s@.subrange(a as int, b as int));
    }
    (a, b)
}

/// `trim_start(s)` begins with `p`.
pub fn trimmed_starts_with(s: &Vec<char>, p: &Vec<char>) -> (b: bool)
    ensures
        b == starts_with(trim_start(s@), p@),
{
    let a = leading_ws_exec(s);
    let r = matches_at_exec(s, p, a);
    proof {
        let t = s@.skip(a as int);
        if r {
            assert(t.subrange(0, p@.len() as int) =~= s@.subrange(a as int, a + p@.len()));
        }
        if starts_with(t, p@) {
            assert(t.subrange(0, p@.len() as int) =~= s@.subrange(a as int, a + p@.len()));
        }
    }
    r
}

/// `trim(s)` begins with `p`.
pub fn trimmed_full_starts_with(s: &Vec<char>, p: &Vec<char>) -> (b: bool)
    ensures
        b == starts_with(trim(s@), p@),
{
    let (a, e) = trim_bounds(s);
    if p.len() > e - a {
        return false;
    }
    let r = matches_at_exec(s, p, a);
    proof {
        let t = s@.subrange(a as int, e as int);
        assert(t.subrange(0, p@.len() as int) =~= s@.subrange(a as int, a + p@.len()));
    }
    r
}

/// `trim(s)` ends with `p`.
pub fn trimmed_ends_with(s: &Vec<char>, p: &Vec<char>) -> (b: bool)
    ensures
        b == ends_with(trim(s@), p@),
{
    let (a, e) = trim_bounds(s);
    if p.len() > e - a {
        return false;
    }
    let r = matches_at_exec(s, p, e - p.len());
    proof {
        let t = s@.subrange(a as int, e as int);
        assert(t.subrange(t.len() - p@.len(), t.len() as int) =~= s@.subrange(
            e - p@.len(),
            e as int,
        ));
    }
    r
}

/// What `str::replace` returns on these characters.
pub fn replace_exec(s: &Vec<char>, p: &Vec<char>, r: &Vec<char>) -> (out: Vec<char>)
    requires
        p.len() > 0,
    ensures
        out@ == replace_all(s@, p@, r@),
{
    let mut out: Vec<char> = Vec::new();
    let mut from: usize = 0;
    loop
        invariant
            p.len() > 0,
            from <= s.len(),
            out@ + replace_from(s@, p@, r@, from as int) == replace_all(s@, p@, r@),
        decreases s.len() - from,
    {
        let f = find_exec(s, p, from);
        proof {
            lemma_find_from(s@, p@, from as int);
        }
        match f {
            None => {
                let mut k = from;
                while k < s.len()
                    invariant
                        from <= k <= s.len(),
                        out@ + s@.subrange(k as int, s.len() as int) == replace_all(s@, p@, r@),
                    decreases s.len() - k,
                {
                    let ghost before = out@;
                    out.push(s[k]);
                    assert(before + s@.subrange(k as int, s.len() as int) =~= out@
                        + s@.subrange(k + 1, s.len() as int));
                    k += 1;
                }
                assert(out@ + s@.subrange(s.len() as int, s.len() as int) =~= out@);
                return out;
            },
            Some(i) => {
                let ghost before = out@;
                let mut k = from;
                while k < i
                    invariant
                        from <= k <= i,
                        i + p.len() <= s.len(),
                        out@ == before + s@.subrange(from as int, k as int),
                    decreases i - k,
                {
                    out.push(s[k]);
                    assert(before + s@.subrange(from as int, k + 1) =~= out@);
                    k += 1;
                }
                let mut m: usize = 0;
                while m < r.len()
                    invariant
                        m <= r.len(),
                        out@ == before + s@.subrange(from as int, i as int) + r@.take(m as int),
                    decreases r.len() - m,
                {
                    out.push(r[m]);
                    assert(before + s@.subrange(from as int, i as int) + r@.take(m + 1) =~= out@);
                    m += 1;
                }
                assert(r@.take(r.len() as int) =~= r@);
                assert(before + (s@.subrange(from as int, i as int) + r@ + replace_from(
                    s@,
                    p@,
                    r@,
                    i + p.len(),
                )) =~= out@ + replace_from(s@, p@, r@, i + p.len()));
                from = i + p.len();
            },
        }
    }
}


/// The characters of `s` from `a` up to `b`.
pub fn slice_of(s: &Vec<char>, a: usize, b: usize) -> (r: Vec<char>)
    requires
        a <= b <= s.len(),
    ensures
        r@ == s@.subrange(a as int, b as int),
{
    let mut r: Vec<char> = Vec::new();
    let mut k = a;
    while k < b
        invariant
            a <= k <= b <= s.len(),
            r@ == s@.subrange(a as int, k as int),
        decreases b - k,
    {
        r.push(s[k]);
        assert(r@ =~= s@.subrange(a as int, k + 1));
        k += 1;
    }
    r
}

/// Appends the characters of `t` to `out`.
pub fn append(out: &mut Vec<char>, t: &Vec<char>)
    ensures
        final(out)@ == old(out)@ + t@,
{
    let mut k: usize = 0;
    while k < t.len()
        invariant
            k <= t.len(),
            out@ == old(out)@ + t@.take(k as int),
        decreases t.len() - k,
    {
        out.push(t[k]);
        assert(out@ =~= old(out)@ + t@.take(k + 1));
        k += 1;
    }
    assert(t@.take(t.len() as int) =~= t@);
}

pub open spec fn strings_view(v: Seq<String>) -> Seq<Seq<char>> {
    v.map_values(|s: String| s@)
}

/// The characters of `a` followed by those of `b`.
pub fn concat(a: &Vec<char>, b: &Vec<char>) -> (r: Vec<char>)
    ensures
        r@ == a@ + b@,
{
    let mut r = a.clone();
    assert(r@ == a@);
    append(&mut r, b);
    r
}

/// Appends copies of the lines `ls[a..b]` to `out`.
pub fn extend_lines(out: &mut Vec<Vec<char>>, ls: &Vec<Vec<char>>, a: usize, b: usize)
    requires
        a <= b <= ls.len(),
    ensures
        lines_view(final(out)@) == lines_view(old(out)@) + lines_view(ls@).subrange(a as int, b as int),
{
    let mut i = a;
    while i < b
        invariant
            a <= i <= b <= ls.len(),
            lines_view(out@) == lines_view(old(out)@) + lines_view(ls@).subrange(a as int, i as int),
        decreases b - i,
    {
        push_line(out, &ls[i]);
        assert(lines_view(out@) =~= lines_view(old(out)@) + lines_view(ls@).subrange(a as int, i + 1));
        i += 1;
    }
}

/// Converts each line to a `String`.
pub fn strings_of(ls: &Vec<Vec<char>>) -> (r: Vec<String>)
    ensures
        strings_view(r@) == lines_view(ls@),
{
    let mut r: Vec<String> = Vec::new();
    let mut i: usize = 0;
    while i < ls.len()
        invariant
            i <= ls.len(),
            strings_view(r@) == lines_view(ls@).take(i as int),
        decreases ls.len() - i,
    {
        let s = string_of(&ls[i]);
        let ghost r0 = r@;
        r.push(s);
        assert(r@ == r0.push(s));
        assert(strings_view(r@) =~= strings_view(r0).push(s@));
        assert(lines_view(ls@).take(i + 1) =~= lines_view(ls@).take(i as int).push(ls@[i as int]@));
        assert(strings_view(r@) =~= lines_view(ls@).take(i + 1));
        i += 1;
    }
    assert(lines_view(ls@).take(ls.len() as int) =~= lines_view(ls@));
    r
}

/// Appends a copy of `l` to `out`.
pub fn push_line(out: &mut Vec<Vec<char>>, l: &Vec<char>)
    ensures
        lines_view(final(out)@) == lines_view(old(out)@).push(l@),
{
    let c = l.clone();
    assert(c@ == l@);
    out.push(c);
    assert(lines_view(out@) =~= lines_view(old(out)@).push(l@));
}

pub fn split_lines_exec(s: &Vec<char>) -> (r: Vec<Vec<char>>)
    ensures
        lines_view(r@) == split_lines(s@),
{
    let nl = vec!['\n'];
    let mut r: Vec<Vec<char>> = Vec::new();
    let mut from: usize = 0;
    loop
        invariant
            from <= s.len(),
            nl@ == newline(),
            lines_view(r@) + lines_from(s@, from as int) == split_lines(s@),
        decreases s.len() - from,
    {
        let f = find_exec(s, &nl, from);
        proof {
            lemma_find_from(s@, newline(), from as int);
        }
        match f {
            None => {
                let last = slice_of(s, from, s.len());
                let ghost before = r@;
                r.push(last);
                assert(lines_view(r@) =~= lines_view(before) + lines_from(s@, from as int));
                return r;
            },
            Some(i) => {
                let piece = slice_of(s, from, i);
                let ghost before = r@;
                r.push(piece);
                assert(lines_view(r@) + lines_from(s@, i + 1) =~= lines_view(before)
                    + lines_from(s@, from as int));
                from = i + 1;
            },
        }
    }
}

pub fn join_lines_exec(ls: &Vec<Vec<char>>) -> (r: Vec<char>)
    ensures
        r@ == join_lines(lines_view(ls@)),
{
    let mut r: Vec<char> = Vec::new();
    if ls.len() == 0 {
        return r;
    }
    append(&mut r, &ls[0]);
    assert(lines_view(ls@).take(1).drop_last().len() == 0);
    let mut i: usize = 1;
    while i < ls.len()
        invariant
            1 <= i <= ls.len(),
            r@ == join_lines(lines_view(ls@).take(i as int)),
        decreases ls.len() - i,
    {
        r.push('\n');
        append(&mut r, &ls[i]);
        assert(lines_view(ls@).take(i + 1).drop_last() =~= lines_view(ls@).take(i as int));
        assert(r@ =~= join_lines(lines_view(ls@).take(i + 1)));
        i += 1;
    }
    assert(lines_view(ls@).take(ls.len() as int) =~= lines_view(ls@));
    r
}

/// Joining `a` in front of non-empty lines `ls`.
pub proof fn lemma_join_prepend(a: Seq<char>, ls: Seq<Seq<char>>)
    requires
        ls.len() >= 1,
    ensures
        join_lines(seq![a] + ls) == a + newline() + join_lines(ls),
    decreases ls.len(),
{
    let al = seq![a] + ls;
    assert(al.len() >= 2);
    assert(al.last() == ls.last());
    if ls.len() == 1 {
        assert(al.drop_last() =~= seq![a]);
        assert(join_lines(seq![a]) == a);
        assert(join_lines(ls) == ls[0]);
    } else {
        assert(al.drop_last() =~= seq![a] + ls.drop_last());
        lemma_join_prepend(a, ls.drop_last());
        assert(a + newline() + join_lines(ls.drop_last()) + newline() + ls.last() =~= a + newline()
            + (join_lines(ls.drop_last()) + newline() + ls.last()));
    }
}

pub proof fn lemma_lines_from_nonempty(s: Seq<char>, from: int)
    requires
        0 <= from <= s.len(),
    ensures
        lines_from(s, from).len() >= 1,
    decreases s.len() - from,
{
    lemma_find_from(s, newline(), from);
    match find_from(s, newline(), from) {
        Some(i) => if from <= i < s.len() {
            lemma_lines_from_nonempty(s, i + 1);
        },
        None => {},
    }
}

/// Joining the lines of a text back gives the text unchanged.
pub proof fn lemma_join_split_from(s: Seq<char>, from: int)
    requires
        0 <= from <= s.len(),
    ensures
        join_lines(lines_from(s, from)) == s.skip(from),
    decreases s.len() - from,
{
    lemma_find_from(s, newline(), from);
    match find_from(s, newline(), from) {
        Some(i) => {
            lemma_lines_from_nonempty(s, i + 1);
            lemma_join_split_from(s, i + 1);
            lemma_join_prepend(s.subrange(from, i), lines_from(s, i + 1));
            assert(s.subrange(i, i + 1) == newline());
            assert(s.subrange(from, i) + newline() + s.skip(i + 1) =~= s.skip(from));
        },
        None => {},
    }
}

pub proof fn lemma_join_split(s: Seq<char>)
    ensures
        join_lines(split_lines(s)) == s,
{
    lemma_join_split_from(s, 0);
    assert(s.skip(0) =~= s);
}

} // verus!

//! Relative paths as characters: separators, the file's extension and the
//! directory that holds it.
use vstd::prelude::*;

verus! {

pub open spec fn is_sep(c: char) -> bool {
    c == '/' || c == '\\'
}

/// The last index below `end` holding `a` or `b`, or -1.
pub open spec fn last_of(p: Seq<char>, a: char, b: char, end: int) -> int
    decreases end,
{
    if end <= 0 {
        -1
    } else if p[end - 1] == a || p[end - 1] == b {
        end - 1
    } else {
        last_of(p, a, b, end - 1)
    }
}

/// The path with every `/` written as `\`.
pub open spec fn to_backslash(p: Seq<char>) -> Seq<char> {
    p.map_values(|c: char| if c == '/' { '\\' } else { c })
}

/// The path with every `\` written as `/`.
pub open spec fn to_slash(p: Seq<char>) -> Seq<char> {
    p.map_values(|c: char| if c == '\\' { '/' } else { c })
}

/// What follows the last separator.
pub open spec fn file_name(p: Seq<char>) -> Seq<char> {
    p.skip(last_of(p, '/', '\\', p.len() as int) + 1)
}

/// What follows the last dot of the file name, where that dot is not the
/// name's first character.
pub open spec fn extension_of(p: Seq<char>) -> Option<Seq<char>> {
    let n = file_name(p);
    let d = last_of(n, '.', '.', n.len() as int);
    if d <= 0 {
        None
    } else {
        Some(n.skip(d + 1))
    }
}

/// What precedes the last separator, with `\` as separator: the hierarchy
/// node that a file shows under, empty for a file at the top.
pub open spec fn parent_node(p: Seq<char>) -> Seq<char> {
    let k = last_of(p, '/', '\\', p.len() as int);
    if k < 0 {
        seq![]
    } else {
        to_backslash(p.take(k))
    }
}

/// The extension is one of `c`, `cpp`, `cc`, `cxx`.
pub open spec fn is_source(p: Seq<char>) -> bool {
    match extension_of(p) {
        Some(e) => e == seq!['c'] || e == seq!['c', 'p', 'p'] || e == seq!['c', 'c'] || e == seq![
            'c',
            'x',
            'x',
        ],
        None => false,
    }
}

pub fn last_of_exec(p: &Vec<char>, a: char, b: char) -> (r: Option<usize>)
    ensures
        r matches Some(k) ==> last_of(p@, a, b, p.len() as int) == k && k < p.len(),
        r is None ==> last_of(p@, a, b, p.len() as int) == -1,
{
    let mut e: usize = p.len();
    while e > 0
        invariant
            e <= p.len(),
            last_of(p@, a, b, p.len() as int) == last_of(p@, a, b, e as int),
        decreases e,
    {
        if p[e - 1] == a || p[e - 1] == b {
            return Some(e - 1);
        }
        e -= 1;
    }
    None
}

pub fn to_backslash_exec(p: &Vec<char>) -> (r: Vec<char>)
    ensures
        r@ == to_backslash(p@),
{
    let mut r: Vec<char> = Vec::new();
    let mut i: usize = 0;
    while i < p.len()
        invariant
            i <= p.len(),
            r@ == to_backslash(p@.take(i as int)),
        decreases p.len() - i,
    {
        let c = p[i];
        r.push(if c == '/' { '\\' } else { c });
        assert(r@ =~= to_backslash(p@.take(i + 1)));
        i += 1;
    }
    assert(p@.take(p.len() as int) =~= p@);
    r
}

pub fn to_slash_exec(p: &Vec<char>) -> (r: Vec<char>)
    ensures
        r@ == to_slash(p@),
{
    let mut r: Vec<char> = Vec::new();
    let mut i: usize = 0;
    while i < p.len()
        invariant
            i <= p.len(),
            r@ == to_slash(p@.take(i as int)),
        decreases p.len() - i,
    {
        let c = p[i];
        r.push(if c == '\\' { '/' } else { c });
        assert(r@ =~= to_slash(p@.take(i + 1)));
        i += 1;
    }
    assert(p@.take(p.len() as int) =~= p@);
    r
}

pub fn file_name_exec(p: &Vec<char>) -> (r: Vec<char>)
    ensures
        r@ == file_name(p@),
        r.len() <= p.len(),
{
    let start = match last_of_exec(p, '/', '\\') {
        Some(k) => k + 1,
        None => 0,
    };
    let mut r: Vec<char> = Vec::new();
    let mut i = start;
    while i < p.len()
        invariant
            start <= i <= p.len(),
            r@ == p@.subrange(start as int, i as int),
        decreases p.len() - i,
    {
        r.push(p[i]);
        assert(r@ =~= p@.subrange(start as int, i + 1));
        i += 1;
    }
    r
}

pub fn extension_exec(p: &Vec<char>) -> (r: Option<Vec<char>>)
    ensures
        r matches Some(e) ==> extension_of(p@) == Some(e@),
        r is None ==> extension_of(p@) is None,
{
    let n = file_name_exec(p);
    let d = match last_of_exec(&n, '.', '.') {
        Some(d) => d,
        None => 0,
    };
    if d == 0 {
        None
    } else {
        let mut r: Vec<char> = Vec::new();
        let mut i = d + 1;
        while i < n.len()
            invariant
                d + 1 <= i <= n.len(),
                r@ == n@.subrange(d + 1, i as int),
            decreases n.len() - i,
        {
            r.push(n[i]);
            assert(r@ =~= n@.subrange(d + 1, i + 1));
            i += 1;
        }
        assert(n@.skip(d + 1) =~= n@.subrange(d + 1, n.len() as int));
        Some(r)
    }
}

pub fn parent_node_exec(p: &Vec<char>) -> (r: Vec<char>)
    ensures
        r@ == parent_node(p@),
{
    let k = last_of_exec(p, '/', '\\');
    if k.is_none() {
        Vec::new()
    } else {
        let k = k.unwrap();
        let mut t: Vec<char> = Vec::new();
        let mut i: usize = 0;
        while i < k
            invariant
                i <= k < p.len(),
                t@ == p@.take(i as int),
            decreases k - i,
        {
            t.push(p[i]);
            assert(t@ =~= p@.take(i + 1));
            i += 1;
        }
        to_backslash_exec(&t)
    }
}

pub fn is_source_exec(p: &Vec<char>) -> (b: bool)
    ensures
        b == is_source(p@),
{
    match extension_exec(p) {
        Some(e) => {
            let r = e.len() == 1 && e[0] == 'c' || e.len() == 3 && e[0] == 'c' && e[1] == 'p' && e[2]
                == 'p' || e.len() == 2 && e[0] == 'c' && e[1] == 'c' || e.len() == 3 && e[0] == 'c'
                && e[1] == 'x' && e[2] == 'x';
            proof {
                if e@ == seq!['c'] || e@ == seq!['c', 'p', 'p'] || e@ == seq!['c', 'c'] || e@
                    == seq!['c', 'x', 'x'] {
                    assert(r);
                }
                if r {
                    if e.len() == 1 {
                        assert(e@ =~= seq!['c']);
                    } else if e.len() == 2 {
                        assert(e@ =~= seq!['c', 'c']);
                    } else if e[1] == 'p' {
                        assert(e@ =~= seq!['c', 'p', 'p']);
                    } else {
                        assert(e@ =~= seq!['c', 'x', 'x']);
                    }
                }
            }
            r
        },
        None => false,
    }
}

} // verus!

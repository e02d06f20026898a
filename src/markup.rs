//! Tag-shaped anchors within the lines of a document: which line opens or
//! closes an element, where an element's lines end, and the value of an
//! attribute or of a one-line element.
use vstd::prelude::*;
use crate::text::{
    contains, contains_exec, matches_at, ends_with, find_exec, find_from, lemma_find_from, lines_view,
    slice_of, starts_with, trim, trim_start, trimmed_ends_with, trimmed_full_starts_with,
    trimmed_starts_with,
};

verus! {

/// How a line is tested against a marker.
#[derive(Clone, Copy, PartialEq, Eq, Structural)]
pub enum LineTest {
    /// The line, without its leading whitespace, begins with the marker.
    Opens,
    /// The line, trimmed, begins with the marker.
    TrimmedOpens,
    /// The line, trimmed, ends with the marker.
    Closes,
    /// The marker occurs anywhere in the line.
    Holds,
}

pub open spec fn passes(t: LineTest, marker: Seq<char>, l: Seq<char>) -> bool {
    match t {
        LineTest::Opens => starts_with(trim_start(l), marker),
        LineTest::TrimmedOpens => starts_with(trim(l), marker),
        LineTest::Closes => ends_with(trim(l), marker),
        LineTest::Holds => contains(l, marker),
    }
}

/// The first index in `from..end` whose line passes the test, or `end`.
pub open spec fn first_line(
    ls: Seq<Seq<char>>,
    t: LineTest,
    marker: Seq<char>,
    from: int,
    end: int,
) -> int
    decreases end - from,
{
    if from >= end {
        end
    } else if passes(t, marker, ls[from]) {
        from
    } else {
        first_line(ls, t, marker, from + 1, end)
    }
}

/// The last index below `end` whose line passes the test.
pub open spec fn last_line(ls: Seq<Seq<char>>, t: LineTest, marker: Seq<char>, end: int) -> Option<
    int,
>
    decreases end,
{
    if end <= 0 {
        None
    } else if passes(t, marker, ls[end - 1]) {
        Some(end - 1)
    } else {
        last_line(ls, t, marker, end - 1)
    }
}

/// The text between `attr` (for instance `Include="`) and the next quote.
pub open spec fn attr_value(l: Seq<char>, attr: Seq<char>) -> Option<Seq<char>> {
    match find_from(l, attr, 0) {
        Some(a) => match find_from(l, quote(), a + attr.len()) {
            Some(b) => Some(l.subrange(a + attr.len(), b)),
            None => None,
        },
        None => None,
    }
}

pub open spec fn quote() -> Seq<char> {
    seq!['"']
}

pub open spec fn include_attr() -> Seq<char> {
    "Include=\""@
}

pub open spec fn condition_attr() -> Seq<char> {
    "Condition=\""@
}

pub open spec fn opt_seq(o: Option<Seq<char>>) -> Seq<Seq<char>> {
    match o {
        Some(v) => seq![v],
        None => seq![],
    }
}

pub fn passes_exec(t: LineTest, marker: &Vec<char>, l: &Vec<char>) -> (b: bool)
    ensures
        b == passes(t, marker@, l@),
{
    match t {
        LineTest::Opens => trimmed_starts_with(l, marker),
        LineTest::TrimmedOpens => trimmed_full_starts_with(l, marker),
        LineTest::Closes => trimmed_ends_with(l, marker),
        LineTest::Holds => contains_exec(l, marker),
    }
}

pub fn first_line_exec(
    ls: &Vec<Vec<char>>,
    t: LineTest,
    marker: &Vec<char>,
    from: usize,
    end: usize,
) -> (r: usize)
    requires
        from <= end <= ls.len(),
    ensures
        r == first_line(lines_view(ls@), t, marker@, from as int, end as int),
        from <= r <= end,
{
    let mut i = from;
    while i < end
        invariant
            from <= i <= end <= ls.len(),
            first_line(lines_view(ls@), t, marker@, from as int, end as int) == first_line(
                lines_view(ls@),
                t,
                marker@,
                i as int,
                end as int,
            ),
        decreases end - i,
    {
        if passes_exec(t, marker, &ls[i]) {
            return i;
        }
        i += 1;
    }
    i
}

pub fn last_line_exec(ls: &Vec<Vec<char>>, t: LineTest, marker: &Vec<char>, end: usize) -> (r:
    Option<usize>)
    requires
        end <= ls.len(),
    ensures
        r matches Some(i) ==> last_line(lines_view(ls@), t, marker@, end as int) == Some(i as int),
        r is None ==> last_line(lines_view(ls@), t, marker@, end as int) is None,
{
    let mut e = end;
    while e > 0
        invariant
            e <= end <= ls.len(),
            last_line(lines_view(ls@), t, marker@, end as int) == last_line(
                lines_view(ls@),
                t,
                marker@,
                e as int,
            ),
        decreases e,
    {
        if passes_exec(t, marker, &ls[e - 1]) {
            return Some(e - 1);
        }
        e -= 1;
    }
    None
}

pub fn attr_value_exec(l: &Vec<char>, attr: &Vec<char>) -> (r: Option<Vec<char>>)
    ensures
        r matches Some(v) ==> attr_value(l@, attr@) == Some(v@),
        r is None ==> attr_value(l@, attr@) is None,
{
    let q = vec!['"'];
    assert(q@ =~= quote());
    match find_exec(l, attr, 0) {
        Some(a) => {
            proof {
                lemma_find_from(l@, attr@, 0);
                assert(matches_at(l@, attr@, a as int));
                assert(a + attr@.len() <= l@.len());
            }
            assert(a + attr.len() <= l.len());
            match find_exec(l, &q, a + attr.len()) {
                Some(b) => {
                    proof {
                        lemma_find_from(l@, q@, a + attr@.len());
                    }
                    Some(slice_of(l, a + attr.len(), b))
                },
                None => None,
            }
        },
        None => None,
    }
}

} // verus!

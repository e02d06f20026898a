//! Compile entries as they stand in either document: the lines an entry
//! spans, the node it is assigned to, and the pass that removes selected entries.
use vstd::prelude::*;
use crate::markup::{
    attr_value, attr_value_exec, first_line, first_line_exec, include_attr,
    opt_seq, passes, passes_exec, LineTest,
};
use crate::paths::{is_sep, to_backslash, to_backslash_exec, to_slash, to_slash_exec};
use crate::text::{
    chars_of, contains, contains_exec, find_exec, find_from, leading_ws, leading_ws_exec,
    lemma_find_from, lines_view, matches_at, slice_of,
};

verus! {

pub open spec fn entry_marker() -> Seq<char> {
    "<ClCompile Include=\""@
}

pub open spec fn entry_close() -> Seq<char> {
    "</ClCompile>"@
}

pub open spec fn self_close() -> Seq<char> {
    "/>"@
}

pub open spec fn assign_open() -> Seq<char> {
    "<Filter>"@
}

pub open spec fn assign_close() -> Seq<char> {
    "</Filter>"@
}

/// The line opens a compile entry.
pub open spec fn is_entry(l: Seq<char>) -> bool {
    passes(LineTest::Opens, entry_marker(), l)
}

/// The element that opens at line `i` also ends there.
pub open spec fn one_line(l: Seq<char>, close: Seq<char>) -> bool {
    passes(LineTest::Closes, self_close(), l) || passes(LineTest::Closes, close, l)
}

/// One past the last line of the element that opens at line `i` and ends
/// with `close`: the first later line whose trimmed text ends with `close`,
/// or the end of the document when none does.
pub open spec fn element_end(ls: Seq<Seq<char>>, i: int, close: Seq<char>) -> int {
    if one_line(ls[i], close) {
        i + 1
    } else {
        let c = first_line(ls, LineTest::Closes, close, i + 1, ls.len() as int);
        if i + 1 <= c < ls.len() {
            c + 1
        } else {
            ls.len() as int
        }
    }
}

pub open spec fn entry_end(ls: Seq<Seq<char>>, i: int) -> int {
    element_end(ls, i, entry_close())
}

/// The node named by a `<Filter>name</Filter>` line.
pub open spec fn assignment_of_line(l: Seq<char>) -> Option<Seq<char>> {
    if passes(LineTest::Opens, assign_open(), l) {
        let a = (leading_ws(l) + assign_open().len()) as int;
        match find_from(l, assign_close(), a) {
            Some(q) => Some(l.subrange(a, q)),
            None => None,
        }
    } else {
        None
    }
}

/// The first index in `from..end` holding an assignment line, or `end`.
pub open spec fn assignment_index(ls: Seq<Seq<char>>, from: int, end: int) -> int
    decreases end - from,
{
    if from >= end {
        end
    } else if assignment_of_line(ls[from]) is Some {
        from
    } else {
        assignment_index(ls, from + 1, end)
    }
}

pub open spec fn first_assignment(ls: Seq<Seq<char>>, from: int, end: int) -> Option<Seq<char>> {
    let k = assignment_index(ls, from, end);
    if k < end {
        assignment_of_line(ls[k])
    } else {
        None
    }
}

pub proof fn lemma_assignment_index(ls: Seq<Seq<char>>, from: int, end: int)
    requires
        from <= end,
    ensures
        from <= assignment_index(ls, from, end) <= end,
    decreases end - from,
{
    if from < end && assignment_of_line(ls[from]) is None {
        lemma_assignment_index(ls, from + 1, end);
    }
}

/// The node that the entry opening at line `i` is assigned to.
pub open spec fn entry_assignment(ls: Seq<Seq<char>>, i: int) -> Option<Seq<char>> {
    if one_line(ls[i], entry_close()) {
        None
    } else {
        first_assignment(ls, i + 1, entry_end(ls, i))
    }
}

/// Which entries a delete removes.
pub enum Selection {
    /// Entries whose opening line holds `.ext`, when `ext` is given; else
    /// those whose opening line holds the target: a folder (ending in a
    /// separator) in either separator style, a file literally.
    Text { target: Seq<char>, ext: Option<Seq<char>> },
    /// Entries assigned to this node.
    Node { name: Seq<char> },
}

/// A `Selection` as values a program holds.
pub enum Select {
    /// Entries whose opening line holds `.ext`, when `ext` is given; else
    /// those whose opening line holds the target: a folder (ending in a
    /// separator) in either separator style, a file literally.
    Text { target: Vec<char>, ext: Option<Vec<char>> },
    /// Entries assigned to this node.
    Node { name: Vec<char> },
}

pub open spec fn dot_ext(e: Seq<char>) -> Seq<char> {
    seq!['.'] + e
}

pub open spec fn is_folder(t: Seq<char>) -> bool {
    t.len() > 0 && is_sep(t.last())
}

pub open spec fn line_selected(l: Seq<char>, target: Seq<char>, ext: Option<Seq<char>>) -> bool {
    match ext {
        Some(e) => contains(l, dot_ext(e)),
        None => if is_folder(target) {
            contains(l, to_backslash(target)) || contains(l, to_slash(target))
        } else {
            contains(l, target)
        },
    }
}

pub open spec fn opt_view(o: Option<Vec<char>>) -> Option<Seq<char>> {
    match o {
        Some(v) => Some(v@),
        None => None,
    }
}

impl Select {
    pub open spec fn spec(&self) -> Selection {
        match self {
            Select::Text { target, ext } => Selection::Text { target: target@, ext: opt_view(*ext) },
            Select::Node { name } => Selection::Node { name: name@ },
        }
    }
}

pub open spec fn selected(ls: Seq<Seq<char>>, i: int, sel: Selection) -> bool {
    match sel {
        Selection::Text { target, ext } => line_selected(ls[i], target, ext),
        Selection::Node { name } => entry_assignment(ls, i) == Some(name),
    }
}

/// From line `i` on: the lines kept, and the include paths of the entries
/// removed, in document order.
pub open spec fn drop_entries(ls: Seq<Seq<char>>, sel: Selection, i: int) -> (
    Seq<Seq<char>>,
    Seq<Seq<char>>,
)
    decreases ls.len() - i,
{
    if i < 0 || i >= ls.len() {
        (seq![], seq![])
    } else if is_entry(ls[i]) && selected(ls, i, sel) {
        let rest = drop_entries(ls, sel, entry_end(ls, i));
        (rest.0, opt_seq(attr_value(ls[i], include_attr())) + rest.1)
    } else {
        let rest = drop_entries(ls, sel, i + 1);
        (seq![ls[i]] + rest.0, rest.1)
    }
}

/// The include paths of the entries from line `i` on.
pub open spec fn entry_paths(ls: Seq<Seq<char>>, i: int) -> Seq<Seq<char>>
    decreases ls.len() - i,
{
    if i < 0 || i >= ls.len() {
        seq![]
    } else if is_entry(ls[i]) {
        opt_seq(attr_value(ls[i], include_attr())) + entry_paths(ls, i + 1)
    } else {
        entry_paths(ls, i + 1)
    }
}

pub fn one_line_exec(l: &Vec<char>, close: &Vec<char>) -> (b: bool)
    ensures
        b == one_line(l@, close@),
{
    let sc = chars_of("/>");
    passes_exec(LineTest::Closes, &sc, l) || passes_exec(LineTest::Closes, close, l)
}

pub fn element_end_exec(ls: &Vec<Vec<char>>, i: usize, close: &Vec<char>) -> (r: usize)
    requires
        i < ls.len(),
    ensures
        r == element_end(lines_view(ls@), i as int, close@),
        i < r <= ls.len(),
{
    if one_line_exec(&ls[i], close) {
        i + 1
    } else {
        let c = first_line_exec(ls, LineTest::Closes, close, i + 1, ls.len());
        if c < ls.len() {
            c + 1
        } else {
            ls.len()
        }
    }
}

pub fn entry_end_exec(ls: &Vec<Vec<char>>, i: usize) -> (r: usize)
    requires
        i < ls.len(),
    ensures
        r == entry_end(lines_view(ls@), i as int),
        i < r <= ls.len(),
{
    let close = chars_of("</ClCompile>");
    element_end_exec(ls, i, &close)
}

pub fn assignment_of_line_exec(l: &Vec<char>) -> (r: Option<Vec<char>>)
    ensures
        r matches Some(v) ==> assignment_of_line(l@) == Some(v@),
        r is None ==> assignment_of_line(l@) is None,
{
    let open = chars_of("<Filter>");
    let close = chars_of("</Filter>");
    if !passes_exec(LineTest::Opens, &open, l) {
        return None;
    }
    let w = leading_ws_exec(l);
    if open.len() > l.len() - w {
        proof {
            assert(!matches_at(l@.skip(w as int), open@, 0));
        }
        return None;
    }
    let a = w + open.len();
    match find_exec(l, &close, a) {
        Some(q) => {
            proof {
                lemma_find_from(l@, close@, a as int);
            }
            Some(slice_of(l, a, q))
        },
        None => None,
    }
}

pub fn assignment_index_exec(ls: &Vec<Vec<char>>, from: usize, end: usize) -> (r: (
    usize,
    Option<Vec<char>>,
))
    requires
        from <= end <= ls.len(),
    ensures
        r.0 == assignment_index(lines_view(ls@), from as int, end as int),
        from <= r.0 <= end,
        r.1 matches Some(v) ==> first_assignment(lines_view(ls@), from as int, end as int) == Some(
            v@,
        ),
        r.1 is None ==> first_assignment(lines_view(ls@), from as int, end as int) is None,
{
    let mut j = from;
    while j < end
        invariant
            from <= j <= end <= ls.len(),
            assignment_index(lines_view(ls@), from as int, end as int) == assignment_index(
                lines_view(ls@),
                j as int,
                end as int,
            ),
        decreases end - j,
    {
        match assignment_of_line_exec(&ls[j]) {
            Some(n) => {
                return (j, Some(n));
            },
            None => {},
        }
        j += 1;
    }
    (j, None)
}

pub fn entry_assignment_exec(ls: &Vec<Vec<char>>, i: usize) -> (r: Option<Vec<char>>)
    requires
        i < ls.len(),
    ensures
        r matches Some(v) ==> entry_assignment(lines_view(ls@), i as int) == Some(v@),
        r is None ==> entry_assignment(lines_view(ls@), i as int) is None,
{
    let close = chars_of("</ClCompile>");
    if one_line_exec(&ls[i], &close) {
        None
    } else {
        let e = entry_end_exec(ls, i);
        assignment_index_exec(ls, i + 1, e).1
    }
}

pub fn is_entry_exec(l: &Vec<char>) -> (b: bool)
    ensures
        b == is_entry(l@),
{
    let m = chars_of("<ClCompile Include=\"");
    passes_exec(LineTest::Opens, &m, l)
}

pub fn include_value_exec(l: &Vec<char>) -> (r: Option<Vec<char>>)
    ensures
        r matches Some(v) ==> attr_value(l@, include_attr()) == Some(v@),
        r is None ==> attr_value(l@, include_attr()) is None,
{
    let a = chars_of("Include=\"");
    attr_value_exec(l, &a)
}

fn vec_eq(a: &Vec<char>, b: &Vec<char>) -> (r: bool)
    ensures
        r == (a@ == b@),
{
    if a.len() != b.len() {
        return false;
    }
    let mut i: usize = 0;
    while i < a.len()
        invariant
            a.len() == b.len(),
            i <= a.len(),
            forall|j: int| 0 <= j < i ==> a@[j] == b@[j],
        decreases a.len() - i,
    {
        if a[i] != b[i] {
            return false;
        }
        i += 1;
    }
    assert(a@ =~= b@);
    true
}

pub fn same_chars(a: &Vec<char>, b: &Vec<char>) -> (r: bool)
    ensures
        r == (a@ == b@),
{
    vec_eq(a, b)
}

pub fn line_selected_exec(l: &Vec<char>, target: &Vec<char>, ext: &Option<Vec<char>>) -> (b: bool)
    ensures
        b == line_selected(l@, target@, opt_view(*ext)),
{
    match ext {
        Some(e) => {
            let mut p = vec!['.'];
            let mut k: usize = 0;
            while k < e.len()
                invariant
                    k <= e.len(),
                    p@ == seq!['.'] + e@.take(k as int),
                decreases e.len() - k,
            {
                p.push(e[k]);
                assert(p@ =~= seq!['.'] + e@.take(k + 1));
                k += 1;
            }
            assert(e@.take(e.len() as int) =~= e@);
            contains_exec(l, &p)
        },
        None => {
            if target.len() > 0 && (target[target.len() - 1] == '/' || target[target.len() - 1]
                == '\\') {
                let b = to_backslash_exec(target);
                let f = to_slash_exec(target);
                contains_exec(l, &b) || contains_exec(l, &f)
            } else {
                contains_exec(l, target)
            }
        },
    }
}

pub fn selected_exec(ls: &Vec<Vec<char>>, i: usize, sel: &Select) -> (b: bool)
    requires
        i < ls.len(),
    ensures
        b == selected(lines_view(ls@), i as int, sel.spec()),
{
    match sel {
        Select::Text { target, ext } => line_selected_exec(&ls[i], target, ext),
        Select::Node { name } => match entry_assignment_exec(ls, i) {
            Some(n) => vec_eq(&n, name),
            None => false,
        },
    }
}

pub fn drop_entries_exec(ls: &Vec<Vec<char>>, sel: &Select) -> (r: (Vec<Vec<char>>, Vec<Vec<char>>))
    ensures
        lines_view(r.0@) == drop_entries(lines_view(ls@), sel.spec(), 0).0,
        lines_view(r.1@) == drop_entries(lines_view(ls@), sel.spec(), 0).1,
{
    let ghost all = lines_view(ls@);
    let mut kept: Vec<Vec<char>> = Vec::new();
    let mut removed: Vec<Vec<char>> = Vec::new();
    let mut i: usize = 0;
    while i < ls.len()
        invariant
            i <= ls.len(),
            all == lines_view(ls@),
            lines_view(kept@) + drop_entries(all, sel.spec(), i as int).0 == drop_entries(all, sel.spec(), 0).0,
            lines_view(removed@) + drop_entries(all, sel.spec(), i as int).1 == drop_entries(
                all,
                sel.spec(),
                0,
            ).1,
        decreases ls.len() - i,
    {
        let ghost k0 = kept@;
        let ghost r0 = removed@;
        if is_entry_exec(&ls[i]) && selected_exec(ls, i, sel) {
            let e = entry_end_exec(ls, i);
            match include_value_exec(&ls[i]) {
                Some(p) => {
                    removed.push(p);
                },
                None => {},
            }
            assert(lines_view(removed@) + drop_entries(all, sel.spec(), e as int).1 =~= lines_view(r0)
                + drop_entries(all, sel.spec(), i as int).1);
            i = e;
        } else {
            kept.push(ls[i].clone());
            assert(lines_view(kept@) + drop_entries(all, sel.spec(), i + 1).0 =~= lines_view(k0)
                + drop_entries(all, sel.spec(), i as int).0);
            i += 1;
        }
    }
    (kept, removed)
}

pub fn entry_paths_exec(ls: &Vec<Vec<char>>) -> (r: Vec<Vec<char>>)
    ensures
        lines_view(r@) == entry_paths(lines_view(ls@), 0),
{
    let ghost all = lines_view(ls@);
    let mut out: Vec<Vec<char>> = Vec::new();
    let mut i: usize = 0;
    while i < ls.len()
        invariant
            i <= ls.len(),
            all == lines_view(ls@),
            lines_view(out@) + entry_paths(all, i as int) == entry_paths(all, 0),
        decreases ls.len() - i,
    {
        let ghost o0 = out@;
        if is_entry_exec(&ls[i]) {
            match include_value_exec(&ls[i]) {
                Some(p) => {
                    out.push(p);
                },
                None => {},
            }
        }
        assert(lines_view(out@) + entry_paths(all, i + 1) =~= lines_view(o0) + entry_paths(
            all,
            i as int,
        ));
        i += 1;
    }
    out
}

} // verus!

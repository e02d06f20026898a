//! The filter document: the hierarchy nodes (filters) that files show under,
//! and each file's assignment to a node.
use vstd::prelude::*;
use crate::entries::{
    assign_close, assignment_index, assignment_index_exec, assignment_of_line,
    assignment_of_line_exec, entry_end, entry_end_exec, drop_entries, drop_entries_exec, element_end, element_end_exec, entry_assignment,
    entry_assignment_exec, include_value_exec, is_entry, is_entry_exec, same_chars, Select,
    Selection,
};
use crate::markup::{attr_value, include_attr, opt_seq, passes, passes_exec, LineTest};
use crate::error::ProjectError;
use crate::ids::{is_identifier, new_identifier};
use crate::paths::{is_source, is_source_exec, parent_node, parent_node_exec, to_backslash, to_backslash_exec};
use crate::placement::{place_lines, place_lines_exec};
use crate::project::opt_str;
use crate::text::{
    append, chars_of, extend_lines, join_lines, replace_all, replace_exec, join_lines_exec, lines_view, push_line, split_lines, split_lines_exec,
    starts_with, starts_with_exec, string_of, strings_of, strings_view,
};

verus! {

/// A filter document: where it is kept and its text.
pub struct FilterFile {
    pub path: String,
    pub content: String,
}

pub open spec fn decl_marker() -> Seq<char> {
    "<Filter Include=\""@
}

/// The line declares a node.
pub open spec fn is_decl(l: Seq<char>) -> bool {
    passes(LineTest::Opens, decl_marker(), l)
}

/// The names of the declared nodes from line `i` on, in document order.
pub open spec fn declared_from(ls: Seq<Seq<char>>, i: int) -> Seq<Seq<char>>
    decreases ls.len() - i,
{
    if i < 0 || i >= ls.len() {
        seq![]
    } else if is_decl(ls[i]) {
        opt_seq(attr_value(ls[i], include_attr())) + declared_from(ls, i + 1)
    } else {
        declared_from(ls, i + 1)
    }
}

pub open spec fn declared(ls: Seq<Seq<char>>) -> Seq<Seq<char>> {
    declared_from(ls, 0)
}

/// The pairs (file, node) of the assigned entries from line `i` on.
pub open spec fn assignments_from(ls: Seq<Seq<char>>, i: int) -> Seq<(Seq<char>, Seq<char>)>
    decreases ls.len() - i,
{
    if i < 0 || i >= ls.len() {
        seq![]
    } else if is_entry(ls[i]) && attr_value(ls[i], include_attr()) is Some && entry_assignment(
        ls,
        i,
    ) is Some {
        seq![(attr_value(ls[i], include_attr())->0, entry_assignment(ls, i)->0)]
            + assignments_from(ls, i + 1)
    } else {
        assignments_from(ls, i + 1)
    }
}

pub open spec fn assignments(ls: Seq<Seq<char>>) -> Seq<(Seq<char>, Seq<char>)> {
    assignments_from(ls, 0)
}

/// The files assigned to node `n`, in order.
pub open spec fn files_of(asg: Seq<(Seq<char>, Seq<char>)>, n: Seq<char>) -> Seq<Seq<char>>
    decreases asg.len(),
{
    if asg.len() == 0 {
        seq![]
    } else {
        let r = files_of(asg.drop_last(), n);
        if asg.last().1 == n {
            r.push(asg.last().0)
        } else {
            r
        }
    }
}

/// The elements of `s` without repeats, each where it first occurs.
pub open spec fn dedup(s: Seq<Seq<char>>) -> Seq<Seq<char>>
    decreases s.len(),
{
    if s.len() == 0 {
        seq![]
    } else {
        let r = dedup(s.drop_last());
        if r.contains(s.last()) {
            r
        } else {
            r.push(s.last())
        }
    }
}

/// Each declared node with the files assigned to it, nodes without files included.
pub open spec fn node_files(ls: Seq<Seq<char>>) -> Seq<(Seq<char>, Seq<Seq<char>>)> {
    dedup(declared(ls)).map_values(|n: Seq<char>| (n, files_of(assignments(ls), n)))
}

pub open spec fn pairs_view(v: Seq<(Vec<char>, Vec<char>)>) -> Seq<(Seq<char>, Seq<char>)> {
    v.map_values(|p: (Vec<char>, Vec<char>)| (p.0@, p.1@))
}

pub open spec fn string_pairs_view(v: Seq<(String, String)>) -> Seq<(Seq<char>, Seq<char>)> {
    v.map_values(|p: (String, String)| (p.0@, p.1@))
}

pub open spec fn groups_view(v: Seq<(String, Vec<String>)>) -> Seq<(Seq<char>, Seq<Seq<char>>)> {
    v.map_values(|p: (String, Vec<String>)| (p.0@, strings_view(p.1@)))
}

pub fn is_decl_exec(l: &Vec<char>) -> (b: bool)
    ensures
        b == is_decl(l@),
{
    let m = chars_of("<Filter Include=\"");
    passes_exec(LineTest::Opens, &m, l)
}

pub fn declared_exec(ls: &Vec<Vec<char>>) -> (r: Vec<Vec<char>>)
    ensures
        lines_view(r@) == declared(lines_view(ls@)),
{
    let ghost all = lines_view(ls@);
    let mut out: Vec<Vec<char>> = Vec::new();
    let mut i: usize = 0;
    while i < ls.len()
        invariant
            i <= ls.len(),
            all == lines_view(ls@),
            lines_view(out@) + declared_from(all, i as int) == declared(all),
        decreases ls.len() - i,
    {
        let ghost o0 = out@;
        if is_decl_exec(&ls[i]) {
            match include_value_exec(&ls[i]) {
                Some(n) => {
                    push_line(&mut out, &n);
                },
                None => {},
            }
        }
        assert(lines_view(out@) + declared_from(all, i + 1) =~= lines_view(o0) + declared_from(
            all,
            i as int,
        ));
        i += 1;
    }
    out
}

pub fn assignments_exec(ls: &Vec<Vec<char>>) -> (r: Vec<(Vec<char>, Vec<char>)>)
    ensures
        pairs_view(r@) == assignments(lines_view(ls@)),
{
    let ghost all = lines_view(ls@);
    let mut out: Vec<(Vec<char>, Vec<char>)> = Vec::new();
    let mut i: usize = 0;
    while i < ls.len()
        invariant
            i <= ls.len(),
            all == lines_view(ls@),
            pairs_view(out@) + assignments_from(all, i as int) == assignments(all),
        decreases ls.len() - i,
    {
        let ghost o0 = out@;
        if is_entry_exec(&ls[i]) {
            match include_value_exec(&ls[i]) {
                Some(p) => match entry_assignment_exec(ls, i) {
                    Some(n) => {
                        out.push((p, n));
                        assert(pairs_view(out@) =~= pairs_view(o0).push((p@, n@)));
                    },
                    None => {},
                },
                None => {},
            }
        }
        assert(pairs_view(out@) + assignments_from(all, i + 1) =~= pairs_view(o0)
            + assignments_from(all, i as int));
        i += 1;
    }
    out
}

pub fn contains_line(v: &Vec<Vec<char>>, x: &Vec<char>) -> (b: bool)
    ensures
        b == lines_view(v@).contains(x@),
{
    let mut i: usize = 0;
    while i < v.len()
        invariant
            i <= v.len(),
            forall|j: int| 0 <= j < i ==> lines_view(v@)[j] != x@,
        decreases v.len() - i,
    {
        if same_chars(&v[i], x) {
            assert(lines_view(v@)[i as int] == x@);
            return true;
        }
        i += 1;
    }
    false
}

pub fn dedup_exec(v: &Vec<Vec<char>>) -> (r: Vec<Vec<char>>)
    ensures
        lines_view(r@) == dedup(lines_view(v@)),
{
    let ghost s = lines_view(v@);
    let mut r: Vec<Vec<char>> = Vec::new();
    let mut i: usize = 0;
    while i < v.len()
        invariant
            i <= v.len(),
            s == lines_view(v@),
            lines_view(r@) == dedup(s.take(i as int)),
        decreases v.len() - i,
    {
        assert(s.take(i + 1).drop_last() =~= s.take(i as int));
        if !contains_line(&r, &v[i]) {
            push_line(&mut r, &v[i]);
        }
        i += 1;
    }
    assert(s.take(v.len() as int) =~= s);
    r
}

pub fn files_of_exec(asg: &Vec<(Vec<char>, Vec<char>)>, n: &Vec<char>) -> (r: Vec<Vec<char>>)
    ensures
        lines_view(r@) == files_of(pairs_view(asg@), n@),
{
    let ghost a = pairs_view(asg@);
    let mut r: Vec<Vec<char>> = Vec::new();
    let mut i: usize = 0;
    while i < asg.len()
        invariant
            i <= asg.len(),
            a == pairs_view(asg@),
            lines_view(r@) == files_of(a.take(i as int), n@),
        decreases asg.len() - i,
    {
        assert(a.take(i + 1).drop_last() =~= a.take(i as int));
        if same_chars(&asg[i].1, n) {
            push_line(&mut r, &asg[i].0);
        }
        i += 1;
    }
    assert(a.take(asg.len() as int) =~= a);
    r
}

/// A target with no `.` and no separator, given without an extension, names
/// a node: the delete removes that node and every file assigned to it.
pub open spec fn node_target(target: Seq<char>, ext: Option<Seq<char>>) -> Option<Seq<char>> {
    if ext is None && !target.contains('.') && !target.contains('/') && !target.contains('\\') {
        Some(target)
    } else {
        None
    }
}

pub open spec fn delete_selection(target: Seq<char>, ext: Option<Seq<char>>) -> Selection {
    match node_target(target, ext) {
        Some(n) => Selection::Node { name: n },
        None => Selection::Text { target, ext },
    }
}

pub open spec fn assigned_nodes(ls: Seq<Seq<char>>) -> Seq<Seq<char>> {
    assignments(ls).map_values(|a: (Seq<char>, Seq<char>)| a.1)
}

/// `m` names a node strictly below `n`.
pub open spec fn below(m: Seq<char>, n: Seq<char>) -> bool {
    starts_with(m, n + seq!['\\'])
}

/// Node `n` still has a file at or below it, or a declared descendant that
/// had no files before the delete and survives it.
pub open spec fn keeps_node(
    before_nodes: Seq<Seq<char>>,
    kept_nodes: Seq<Seq<char>>,
    kept_decls: Seq<Seq<char>>,
    n: Seq<char>,
    tgt: Option<Seq<char>>,
) -> bool {
    (exists|k: int| 0 <= k < kept_nodes.len() && (kept_nodes[k] == n || below(kept_nodes[k], n)))
        || (exists|k: int|
        0 <= k < kept_decls.len() && below(kept_decls[k], n) && !before_nodes.contains(
            kept_decls[k],
        ) && tgt != Some(kept_decls[k]))
}

/// The declaration of `n` goes: `n` is the node the delete names, or it had
/// files before and keeps nothing below it.
pub open spec fn node_removed(
    before_nodes: Seq<Seq<char>>,
    kept_nodes: Seq<Seq<char>>,
    kept_decls: Seq<Seq<char>>,
    n: Seq<char>,
    tgt: Option<Seq<char>>,
) -> bool {
    tgt == Some(n) || (before_nodes.contains(n) && !keeps_node(
        before_nodes,
        kept_nodes,
        kept_decls,
        n,
        tgt,
    ))
}

pub open spec fn decl_close() -> Seq<char> {
    "</Filter>"@
}

/// From line `i` of the lines kept after entry removal: the lines left once
/// the removed nodes' declarations are gone, and those nodes' names.
pub open spec fn drop_decls(
    kept: Seq<Seq<char>>,
    before_nodes: Seq<Seq<char>>,
    tgt: Option<Seq<char>>,
    i: int,
) -> (Seq<Seq<char>>, Seq<Seq<char>>)
    decreases kept.len() - i,
{
    if i < 0 || i >= kept.len() {
        (seq![], seq![])
    } else if is_decl(kept[i]) && attr_value(kept[i], include_attr()) is Some && node_removed(
        before_nodes,
        assigned_nodes(kept),
        declared(kept),
        attr_value(kept[i], include_attr())->0,
        tgt,
    ) {
        let rest = drop_decls(kept, before_nodes, tgt, element_end(kept, i, decl_close()));
        (rest.0, seq![attr_value(kept[i], include_attr())->0] + rest.1)
    } else {
        let rest = drop_decls(kept, before_nodes, tgt, i + 1);
        (seq![kept[i]] + rest.0, rest.1)
    }
}

/// A delete on the filter document: the text left, the removed files and
/// the removed nodes, each in document order.
pub open spec fn filter_deleted(s: Seq<char>, target: Seq<char>, ext: Option<Seq<char>>) -> (
    Seq<char>,
    Seq<Seq<char>>,
    Seq<Seq<char>>,
) {
    let ls = split_lines(s);
    let d = drop_entries(ls, delete_selection(target, ext), 0);
    let c = drop_decls(d.0, assigned_nodes(ls), node_target(target, ext), 0);
    (join_lines(c.0), d.1, c.1)
}

fn node_target_exec(target: &Vec<char>, ext: &Option<Vec<char>>) -> (r: Option<Vec<char>>)
    ensures
        r matches Some(n) ==> node_target(target@, crate::entries::opt_view(*ext)) == Some(n@),
        r is None ==> node_target(target@, crate::entries::opt_view(*ext)) is None,
{
    if ext.is_some() {
        return None;
    }
    let mut i: usize = 0;
    while i < target.len()
        invariant
            i <= target.len(),
            forall|j: int| 0 <= j < i ==> target@[j] != '.' && target@[j] != '/' && target@[j]
                != '\\',
        decreases target.len() - i,
    {
        if target[i] == '.' || target[i] == '/' || target[i] == '\\' {
            assert(target@[i as int] == target@[i as int]);
            return None;
        }
        i += 1;
    }
    Some(target.clone())
}

fn assigned_nodes_exec(ls: &Vec<Vec<char>>) -> (r: Vec<Vec<char>>)
    ensures
        lines_view(r@) == assigned_nodes(lines_view(ls@)),
{
    let a = assignments_exec(ls);
    let mut r: Vec<Vec<char>> = Vec::new();
    let mut i: usize = 0;
    while i < a.len()
        invariant
            i <= a.len(),
            pairs_view(a@) == assignments(lines_view(ls@)),
            lines_view(r@) == assigned_nodes(lines_view(ls@)).take(i as int),
        decreases a.len() - i,
    {
        push_line(&mut r, &a[i].1);
        assert(lines_view(r@) =~= assigned_nodes(lines_view(ls@)).take(i + 1));
        i += 1;
    }
    assert(assigned_nodes(lines_view(ls@)).take(a.len() as int) =~= assigned_nodes(
        lines_view(ls@),
    ));
    r
}

fn below_exec(m: &Vec<char>, n: &Vec<char>) -> (b: bool)
    ensures
        b == below(m@, n@),
{
    let mut p = n.clone();
    p.push('\\');
    assert(p@ =~= n@ + seq!['\\']);
    starts_with_exec(m, &p)
}

fn node_removed_exec(
    before_nodes: &Vec<Vec<char>>,
    kept_nodes: &Vec<Vec<char>>,
    kept_decls: &Vec<Vec<char>>,
    n: &Vec<char>,
    tgt: &Option<Vec<char>>,
) -> (b: bool)
    ensures
        b == node_removed(
            lines_view(before_nodes@),
            lines_view(kept_nodes@),
            lines_view(kept_decls@),
            n@,
            crate::entries::opt_view(*tgt),
        ),
{
    let ghost bn = lines_view(before_nodes@);
    let ghost kn = lines_view(kept_nodes@);
    let ghost kd = lines_view(kept_decls@);
    let ghost t = crate::entries::opt_view(*tgt);
    let named = match tgt {
        Some(t) => same_chars(t, n),
        None => false,
    };
    assert(named == (t == Some(n@)));
    if named {
        return true;
    }
    if !contains_line(before_nodes, n) {
        assert(!bn.contains(n@));
        assert(!node_removed(bn, kn, kd, n@, t));
        return false;
    }
    let mut k: usize = 0;
    while k < kept_nodes.len()
        invariant
            k <= kept_nodes.len(),
            kn == lines_view(kept_nodes@),
            kd == lines_view(kept_decls@),
            bn == lines_view(before_nodes@),
            t == crate::entries::opt_view(*tgt),
            t != Some(n@),
            bn.contains(n@),
            forall|j: int| 0 <= j < k ==> !(kn[j] == n@ || below(kn[j], n@)),
        decreases kept_nodes.len() - k,
    {
        if same_chars(&kept_nodes[k], n) || below_exec(&kept_nodes[k], n) {
            assert(kn[k as int] == n@ || below(kn[k as int], n@));
            assert(keeps_node(bn, kn, kd, n@, t));
            return false;
        }
        k += 1;
    }
    let mut k: usize = 0;
    while k < kept_decls.len()
        invariant
            k <= kept_decls.len(),
            kd == lines_view(kept_decls@),
            kn == lines_view(kept_nodes@),
            bn == lines_view(before_nodes@),
            t == crate::entries::opt_view(*tgt),
            t != Some(n@),
            bn.contains(n@),
            forall|j: int| 0 <= j < kn.len() ==> !(kn[j] == n@ || below(kn[j], n@)),
            forall|j: int|
                0 <= j < k ==> !(below(kd[j], n@) && !bn.contains(kd[j]) && t != Some(kd[j])),
        decreases kept_decls.len() - k,
    {
        let d = &kept_decls[k];
        if below_exec(d, n) && !contains_line(before_nodes, d) {
            let is_tgt = match tgt {
                Some(t) => same_chars(t, d),
                None => false,
            };
            if !is_tgt {
                assert(below(kd[k as int], n@) && !bn.contains(kd[k as int]) && t != Some(
                    kd[k as int],
                ));
                assert(keeps_node(bn, kn, kd, n@, t));
                return false;
            }
        }
        k += 1;
    }
    true
}

fn drop_decls_exec(kept: &Vec<Vec<char>>, before_nodes: &Vec<Vec<char>>, tgt: &Option<Vec<char>>) -> (r: (
    Vec<Vec<char>>,
    Vec<Vec<char>>,
))
    ensures
        lines_view(r.0@) == drop_decls(
            lines_view(kept@),
            lines_view(before_nodes@),
            crate::entries::opt_view(*tgt),
            0,
        ).0,
        lines_view(r.1@) == drop_decls(
            lines_view(kept@),
            lines_view(before_nodes@),
            crate::entries::opt_view(*tgt),
            0,
        ).1,
{
    let ghost all = lines_view(kept@);
    let ghost bn = lines_view(before_nodes@);
    let ghost t = crate::entries::opt_view(*tgt);
    let kept_nodes = assigned_nodes_exec(kept);
    let kept_decls = declared_exec(kept);
    let close = chars_of("</Filter>");
    let mut out: Vec<Vec<char>> = Vec::new();
    let mut names: Vec<Vec<char>> = Vec::new();
    let mut i: usize = 0;
    while i < kept.len()
        invariant
            i <= kept.len(),
            all == lines_view(kept@),
            bn == lines_view(before_nodes@),
            t == crate::entries::opt_view(*tgt),
            close@ == decl_close(),
            lines_view(kept_nodes@) == assigned_nodes(all),
            lines_view(kept_decls@) == declared(all),
            lines_view(out@) + drop_decls(all, bn, t, i as int).0 == drop_decls(all, bn, t, 0).0,
            lines_view(names@) + drop_decls(all, bn, t, i as int).1 == drop_decls(all, bn, t, 0).1,
        decreases kept.len() - i,
    {
        let ghost o0 = out@;
        let ghost n0 = names@;
        let mut dropped = false;
        if is_decl_exec(&kept[i]) {
            match include_value_exec(&kept[i]) {
                Some(n) => {
                    if node_removed_exec(before_nodes, &kept_nodes, &kept_decls, &n, tgt) {
                        let e = element_end_exec(kept, i, &close);
                        push_line(&mut names, &n);
                        assert(lines_view(names@) + drop_decls(all, bn, t, e as int).1
                            =~= lines_view(n0) + drop_decls(all, bn, t, i as int).1);
                        assert(lines_view(out@) + drop_decls(all, bn, t, e as int).0
                            =~= lines_view(o0) + drop_decls(all, bn, t, i as int).0);
                        i = e;
                        dropped = true;
                    }
                },
                None => {},
            }
        }
        if !dropped {
            push_line(&mut out, &kept[i]);
            assert(lines_view(out@) + drop_decls(all, bn, t, i + 1).0 =~= lines_view(o0)
                + drop_decls(all, bn, t, i as int).0);
            assert(lines_view(names@) + drop_decls(all, bn, t, i + 1).1 =~= lines_view(n0)
                + drop_decls(all, bn, t, i as int).1);
            i += 1;
        }
    }
    (out, names)
}

/// The node that each source file goes under, in order, where it has one.
pub open spec fn wanted_nodes(project: Seq<Seq<char>>, scan: Seq<Seq<char>>, n: int) -> Seq<
    Seq<char>,
>
    decreases n,
{
    if n <= 0 {
        seq![]
    } else {
        let rest = wanted_nodes(project, scan, n - 1);
        if is_source(project[n - 1]) && parent_node(scan[n - 1]).len() > 0 {
            rest.push(parent_node(scan[n - 1]))
        } else {
            rest
        }
    }
}

/// The elements of `s` that `d` does not hold.
pub open spec fn absent(s: Seq<Seq<char>>, d: Seq<Seq<char>>) -> Seq<Seq<char>>
    decreases s.len(),
{
    if s.len() == 0 {
        seq![]
    } else {
        let rest = absent(s.drop_last(), d);
        if d.contains(s.last()) {
            rest
        } else {
            rest.push(s.last())
        }
    }
}

/// The nodes an add declares: those its files go under that are not declared yet.
pub open spec fn nodes_to_add(ls: Seq<Seq<char>>, project: Seq<Seq<char>>, scan: Seq<Seq<char>>) -> Seq<
    Seq<char>,
> {
    absent(dedup(wanted_nodes(project, scan, project.len() as int)), declared(ls))
}

pub open spec fn decl_lines_of(n: Seq<char>, id: Seq<char>) -> Seq<Seq<char>> {
    seq![
        "    <Filter Include=\""@ + n + "\">"@,
        "      <UniqueIdentifier>{"@ + id + "}</UniqueIdentifier>"@,
        "    </Filter>"@,
    ]
}

pub open spec fn decl_lines(nodes: Seq<Seq<char>>, ids: Seq<Seq<char>>, n: int) -> Seq<Seq<char>>
    decreases n,
{
    if n <= 0 {
        seq![]
    } else {
        decl_lines(nodes, ids, n - 1) + decl_lines_of(nodes[n - 1], ids[n - 1])
    }
}

/// The entry of a source file: assigned to its node, or at the top.
pub open spec fn entry_lines_of(p: Seq<char>, s: Seq<char>) -> Seq<Seq<char>> {
    let n = parent_node(s);
    if n.len() > 0 {
        seq![
            "    <ClCompile Include=\""@ + to_backslash(p) + "\">"@,
            "      <Filter>"@ + n + "</Filter>"@,
            "    </ClCompile>"@,
        ]
    } else {
        seq!["    <ClCompile Include=\""@ + to_backslash(p) + "\" />"@]
    }
}

pub open spec fn entry_lines(project: Seq<Seq<char>>, scan: Seq<Seq<char>>, n: int) -> Seq<
    Seq<char>,
>
    decreases n,
{
    if n <= 0 {
        seq![]
    } else if is_source(project[n - 1]) {
        entry_lines(project, scan, n - 1) + entry_lines_of(project[n - 1], scan[n - 1])
    } else {
        entry_lines(project, scan, n - 1)
    }
}

/// The lines after an add: the new declarations placed with the existing
/// ones, then the new entries with the existing entries.
pub open spec fn hierarchy_added(
    ls: Seq<Seq<char>>,
    project: Seq<Seq<char>>,
    scan: Seq<Seq<char>>,
    ids: Seq<Seq<char>>,
) -> Seq<Seq<char>> {
    let nodes = nodes_to_add(ls, project, scan);
    let with_decls = place_lines(ls, "<Filter Include="@, decl_lines(nodes, ids, nodes.len() as int));
    place_lines(with_decls, "<ClCompile Include="@, entry_lines(project, scan, project.len() as int))
}

fn wanted_nodes_exec(project: &Vec<Vec<char>>, scan: &Vec<Vec<char>>) -> (r: Vec<Vec<char>>)
    requires
        project.len() == scan.len(),
    ensures
        lines_view(r@) == wanted_nodes(lines_view(project@), lines_view(scan@), project.len() as int),
{
    let mut r: Vec<Vec<char>> = Vec::new();
    let mut i: usize = 0;
    while i < project.len()
        invariant
            i <= project.len() == scan.len(),
            lines_view(r@) == wanted_nodes(lines_view(project@), lines_view(scan@), i as int),
        decreases project.len() - i,
    {
        if is_source_exec(&project[i]) {
            let n = parent_node_exec(&scan[i]);
            if n.len() > 0 {
                push_line(&mut r, &n);
            }
        }
        i += 1;
    }
    r
}

fn absent_exec(s: &Vec<Vec<char>>, d: &Vec<Vec<char>>) -> (r: Vec<Vec<char>>)
    ensures
        lines_view(r@) == absent(lines_view(s@), lines_view(d@)),
{
    let ghost sv = lines_view(s@);
    let mut r: Vec<Vec<char>> = Vec::new();
    let mut i: usize = 0;
    while i < s.len()
        invariant
            i <= s.len(),
            sv == lines_view(s@),
            lines_view(r@) == absent(sv.take(i as int), lines_view(d@)),
        decreases s.len() - i,
    {
        assert(sv.take(i + 1).drop_last() =~= sv.take(i as int));
        if !contains_line(d, &s[i]) {
            push_line(&mut r, &s[i]);
        }
        i += 1;
    }
    assert(sv.take(s.len() as int) =~= sv);
    r
}

fn lines_of_strings(v: &Vec<String>) -> (r: Vec<Vec<char>>)
    ensures
        lines_view(r@) == strings_view(v@),
        r.len() == v.len(),
{
    let mut r: Vec<Vec<char>> = Vec::new();
    let mut i: usize = 0;
    while i < v.len()
        invariant
            i <= v.len(),
            lines_view(r@) == strings_view(v@).take(i as int),
        decreases v.len() - i,
    {
        push_line(&mut r, &chars_of(v[i].as_str()));
        assert(lines_view(r@) =~= strings_view(v@).take(i + 1));
        i += 1;
    }
    assert(strings_view(v@).take(v.len() as int) =~= strings_view(v@));
    r
}

fn text3(a: &str, m: &Vec<char>, b: &str) -> (r: Vec<char>)
    ensures
        r@ == a@ + m@ + b@,
{
    let mut r = chars_of(a);
    append(&mut r, m);
    append(&mut r, &chars_of(b));
    r
}

fn decl_lines_exec(nodes: &Vec<Vec<char>>, ids: &Vec<Vec<char>>) -> (r: Vec<Vec<char>>)
    requires
        nodes.len() == ids.len(),
    ensures
        lines_view(r@) == decl_lines(lines_view(nodes@), lines_view(ids@), nodes.len() as int),
{
    let mut r: Vec<Vec<char>> = Vec::new();
    let mut i: usize = 0;
    while i < nodes.len()
        invariant
            i <= nodes.len() == ids.len(),
            lines_view(r@) == decl_lines(lines_view(nodes@), lines_view(ids@), i as int),
        decreases nodes.len() - i,
    {
        let ghost r0 = lines_view(r@);
        push_line(&mut r, &text3("    <Filter Include=\"", &nodes[i], "\">"));
        push_line(&mut r, &text3("      <UniqueIdentifier>{", &ids[i], "}</UniqueIdentifier>"));
        push_line(&mut r, &chars_of("    </Filter>"));
        assert(lines_view(r@) =~= r0 + decl_lines_of(nodes@[i as int]@, ids@[i as int]@));
        i += 1;
    }
    r
}

fn entry_lines_exec(project: &Vec<Vec<char>>, scan: &Vec<Vec<char>>) -> (r: Vec<Vec<char>>)
    requires
        project.len() == scan.len(),
    ensures
        lines_view(r@) == entry_lines(lines_view(project@), lines_view(scan@), project.len() as int),
{
    let mut r: Vec<Vec<char>> = Vec::new();
    let mut i: usize = 0;
    while i < project.len()
        invariant
            i <= project.len() == scan.len(),
            lines_view(r@) == entry_lines(lines_view(project@), lines_view(scan@), i as int),
        decreases project.len() - i,
    {
        if is_source_exec(&project[i]) {
            let ghost r0 = lines_view(r@);
            let p = to_backslash_exec(&project[i]);
            let n = parent_node_exec(&scan[i]);
            if n.len() > 0 {
                push_line(&mut r, &text3("    <ClCompile Include=\"", &p, "\">"));
                push_line(&mut r, &text3("      <Filter>", &n, "</Filter>"));
                push_line(&mut r, &chars_of("    </ClCompile>"));
            } else {
                push_line(&mut r, &text3("    <ClCompile Include=\"", &p, "\" />"));
            }
            assert(lines_view(r@) =~= r0 + entry_lines_of(project@[i as int]@, scan@[i as int]@));
        }
        i += 1;
    }
    r
}

pub open spec fn include_eq(n: Seq<char>) -> Seq<char> {
    "Include=\""@ + n + "\""@
}

pub open spec fn between_tags(n: Seq<char>) -> Seq<char> {
    ">"@ + n + "<"@
}

/// A line after renaming node `from` to `to`: its declaration and the
/// one-line assignments to it are rewritten, other lines are kept.
pub open spec fn renamed_line(l: Seq<char>, from: Seq<char>, to: Seq<char>) -> Seq<char> {
    if is_decl(l) && attr_value(l, include_attr()) == Some(from) {
        replace_all(l, include_eq(from), include_eq(to))
    } else if passes(LineTest::Closes, assign_close(), l) && assignment_of_line(l) == Some(from) {
        replace_all(l, between_tags(from), between_tags(to))
    } else {
        l
    }
}

pub open spec fn renamed_lines(ls: Seq<Seq<char>>, from: Seq<char>, to: Seq<char>) -> Seq<
    Seq<char>,
> {
    ls.map_values(|l: Seq<char>| renamed_line(l, from, to))
}

/// A rename: `None` when `from` is not declared; else the text after it,
/// whether `to` was declared already (then nothing changes, and the files
/// are those that a merge would move), and the files now under the new name.
pub open spec fn rename_outcome(s: Seq<char>, from: Seq<char>, to: Seq<char>) -> Option<
    (Seq<char>, bool, Seq<Seq<char>>),
> {
    let ls = split_lines(s);
    if !declared(ls).contains(from) {
        None
    } else if declared(ls).contains(to) {
        Some((s, true, files_of(assignments(ls), from)))
    } else {
        let n = renamed_lines(ls, from, to);
        Some((join_lines(n), false, files_of(assignments(n), to)))
    }
}

/// From line `i` on: the lines with every entry assigned to `from`
/// reassigned to `to`, and the moved files.
pub open spec fn merge_from(ls: Seq<Seq<char>>, from: Seq<char>, to: Seq<char>, i: int) -> (
    Seq<Seq<char>>,
    Seq<Seq<char>>,
)
    decreases ls.len() - i,
{
    if i < 0 || i >= ls.len() {
        (seq![], seq![])
    } else if is_entry(ls[i]) && entry_assignment(ls, i) == Some(from) {
        let e = entry_end(ls, i);
        let k = assignment_index(ls, i + 1, e);
        let rest = merge_from(ls, from, to, e);
        (
            ls.subrange(i, k) + seq![replace_all(ls[k], between_tags(from), between_tags(to))]
                + ls.subrange(k + 1, e) + rest.0,
            opt_seq(attr_value(ls[i], include_attr())) + rest.1,
        )
    } else {
        let rest = merge_from(ls, from, to, i + 1);
        (seq![ls[i]] + rest.0, rest.1)
    }
}

/// From line `i` on: the lines without the declarations of `name`.
pub open spec fn drop_named(ls: Seq<Seq<char>>, name: Seq<char>, i: int) -> Seq<Seq<char>>
    decreases ls.len() - i,
{
    if i < 0 || i >= ls.len() {
        seq![]
    } else if is_decl(ls[i]) && attr_value(ls[i], include_attr()) == Some(name) {
        drop_named(ls, name, element_end(ls, i, decl_close()))
    } else {
        seq![ls[i]] + drop_named(ls, name, i + 1)
    }
}

/// A merge of `from` into `to`: the text after it and the moved files. A
/// node merged into itself leaves the text as it is.
pub open spec fn merged(s: Seq<char>, from: Seq<char>, to: Seq<char>) -> (Seq<char>, Seq<Seq<char>>) {
    if from == to {
        (s, seq![])
    } else {
        let m = merge_from(split_lines(s), from, to, 0);
        (join_lines(drop_named(m.0, from, 0)), m.1)
    }
}

fn renamed_line_exec(l: &Vec<char>, from: &Vec<char>, to: &Vec<char>) -> (r: Vec<char>)
    ensures
        r@ == renamed_line(l@, from@, to@),
{
    if is_decl_exec(l) {
        match include_value_exec(l) {
            Some(n) => if same_chars(&n, from) {
                let p = text3("Include=\"", from, "\"");
                let q = text3("Include=\"", to, "\"");
                assert(p@.len() > 0) by {
                    reveal_strlit("Include=\"");
                }
                return replace_exec(l, &p, &q);
            },
            None => {},
        }
    }
    let close = chars_of("</Filter>");
    if passes_exec(LineTest::Closes, &close, l) {
        match assignment_of_line_exec(l) {
            Some(n) => if same_chars(&n, from) {
                let p = text3(">", from, "<");
                let q = text3(">", to, "<");
                assert(p@.len() > 0) by {
                    reveal_strlit(">");
                }
                return replace_exec(l, &p, &q);
            },
            None => {},
        }
    }
    l.clone()
}

fn merge_exec(ls: &Vec<Vec<char>>, from: &Vec<char>, to: &Vec<char>) -> (r: (
    Vec<Vec<char>>,
    Vec<Vec<char>>,
))
    ensures
        lines_view(r.0@) == merge_from(lines_view(ls@), from@, to@, 0).0,
        lines_view(r.1@) == merge_from(lines_view(ls@), from@, to@, 0).1,
{
    let ghost all = lines_view(ls@);
    let p = text3(">", from, "<");
    let q = text3(">", to, "<");
    assert(p@.len() > 0) by {
        reveal_strlit(">");
    }
    let mut out: Vec<Vec<char>> = Vec::new();
    let mut moved: Vec<Vec<char>> = Vec::new();
    let mut i: usize = 0;
    while i < ls.len()
        invariant
            i <= ls.len(),
            all == lines_view(ls@),
            p@ == between_tags(from@),
            q@ == between_tags(to@),
            p@.len() > 0,
            lines_view(out@) + merge_from(all, from@, to@, i as int).0 == merge_from(
                all,
                from@,
                to@,
                0,
            ).0,
            lines_view(moved@) + merge_from(all, from@, to@, i as int).1 == merge_from(
                all,
                from@,
                to@,
                0,
            ).1,
        decreases ls.len() - i,
    {
        let ghost o0 = out@;
        let ghost m0 = moved@;
        let mut hit = false;
        if is_entry_exec(&ls[i]) {
            match entry_assignment_exec(ls, i) {
                Some(n) => if same_chars(&n, from) {
                    hit = true;
                },
                None => {},
            }
        }
        if hit {
            let e = entry_end_exec(ls, i);
            let (k, _) = assignment_index_exec(ls, i + 1, e);
            extend_lines(&mut out, ls, i, k);
            push_line(&mut out, &replace_exec(&ls[k], &p, &q));
            extend_lines(&mut out, ls, k + 1, e);
            match include_value_exec(&ls[i]) {
                Some(f) => {
                    push_line(&mut moved, &f);
                },
                None => {},
            }
            assert(lines_view(out@) + merge_from(all, from@, to@, e as int).0 =~= lines_view(o0)
                + merge_from(all, from@, to@, i as int).0);
            assert(lines_view(moved@) + merge_from(all, from@, to@, e as int).1 =~= lines_view(m0)
                + merge_from(all, from@, to@, i as int).1);
            i = e;
        } else {
            push_line(&mut out, &ls[i]);
            assert(lines_view(out@) + merge_from(all, from@, to@, i + 1).0 =~= lines_view(o0)
                + merge_from(all, from@, to@, i as int).0);
            i += 1;
        }
    }
    (out, moved)
}

fn drop_named_exec(ls: &Vec<Vec<char>>, name: &Vec<char>) -> (r: Vec<Vec<char>>)
    ensures
        lines_view(r@) == drop_named(lines_view(ls@), name@, 0),
{
    let ghost all = lines_view(ls@);
    let close = chars_of("</Filter>");
    let mut out: Vec<Vec<char>> = Vec::new();
    let mut i: usize = 0;
    while i < ls.len()
        invariant
            i <= ls.len(),
            all == lines_view(ls@),
            close@ == decl_close(),
            lines_view(out@) + drop_named(all, name@, i as int) == drop_named(all, name@, 0),
        decreases ls.len() - i,
    {
        let ghost o0 = out@;
        let mut hit = false;
        if is_decl_exec(&ls[i]) {
            match include_value_exec(&ls[i]) {
                Some(n) => if same_chars(&n, name) {
                    hit = true;
                },
                None => {},
            }
        }
        if hit {
            i = element_end_exec(ls, i, &close);
        } else {
            push_line(&mut out, &ls[i]);
            assert(lines_view(out@) + drop_named(all, name@, i + 1) =~= lines_view(o0) + drop_named(
                all,
                name@,
                i as int,
            ));
            i += 1;
        }
    }
    out
}

/// A filter document with the two customary top nodes and nothing else.
pub open spec fn basic_text() -> Seq<char> {
    "<?xml version=\"1.0\" encoding=\"utf-8\"?>\n<Project ToolsVersion=\"4.0\" xmlns=\"http://schemas.microsoft.com/developer/msbuild/2003\">\n  <ItemGroup>\n    <Filter Include=\"Source Files\">\n      <UniqueIdentifier>{4FC737F1-C7A5-4376-A066-2A32D752A2FF}</UniqueIdentifier>\n      <Extensions>cpp;c;cc;cxx;c++;cppm;ixx;def;odl;idl;hpj;bat;asm;asmx</Extensions>\n    </Filter>\n    <Filter Include=\"Header Files\">\n      <UniqueIdentifier>{93995380-89BD-4b04-88EB-625FBE52EBFB}</UniqueIdentifier>\n      <Extensions>h;hh;hpp;hxx;h++;hm;inl;inc;ipp;xsd</Extensions>\n    </Filter>\n  </ItemGroup>\n</Project>\n"@
}

/// The text of a filter document with the two customary top nodes.
pub fn basic_filter_text() -> (r: String)
    ensures
        r@ == basic_text(),
{
    string_of(&chars_of("<?xml version=\"1.0\" encoding=\"utf-8\"?>\n<Project ToolsVersion=\"4.0\" xmlns=\"http://schemas.microsoft.com/developer/msbuild/2003\">\n  <ItemGroup>\n    <Filter Include=\"Source Files\">\n      <UniqueIdentifier>{4FC737F1-C7A5-4376-A066-2A32D752A2FF}</UniqueIdentifier>\n      <Extensions>cpp;c;cc;cxx;c++;cppm;ixx;def;odl;idl;hpj;bat;asm;asmx</Extensions>\n    </Filter>\n    <Filter Include=\"Header Files\">\n      <UniqueIdentifier>{93995380-89BD-4b04-88EB-625FBE52EBFB}</UniqueIdentifier>\n      <Extensions>h;hh;hpp;hxx;h++;hm;inl;inc;ipp;xsd</Extensions>\n    </Filter>\n  </ItemGroup>\n</Project>\n"))
}

/// A new filter document holding `files`: `add_source_files_with_hierarchy`
/// on the basic document, each file's own path serving for its node.
pub fn create_basic_filter_file(files: &Vec<String>) -> (r: String)
    ensures
        exists|ids: Seq<Seq<char>>|
            {
                &&& ids.len() == nodes_to_add(
                    split_lines(basic_text()),
                    strings_view(files@),
                    strings_view(files@),
                ).len()
                &&& forall|k: int| 0 <= k < ids.len() ==> is_identifier(#[trigger] ids[k])
                &&& r@ == join_lines(
                    hierarchy_added(
                        split_lines(basic_text()),
                        strings_view(files@),
                        strings_view(files@),
                        ids,
                    ),
                )
            },
{
    let mut doc = FilterFile::new(String::new(), basic_filter_text());
    doc.add_source_files_with_hierarchy(files, files);
    doc.content
}

impl FilterFile {
    pub fn new(path: String, content: String) -> (r: Self)
        ensures
            r.path == path,
            r.content == content,
    {
        FilterFile { path, content }
    }

    pub fn lines(&self) -> (r: Vec<Vec<char>>)
        ensures
            lines_view(r@) == split_lines(self.content@),
    {
        split_lines_exec(&chars_of(self.content.as_str()))
    }

    fn set_lines(&mut self, ls: &Vec<Vec<char>>)
        ensures
            final(self).path == old(self).path,
            final(self).content@ == join_lines(lines_view(ls@)),
    {
        self.content = string_of(&join_lines_exec(ls));
    }

    fn delete_parts(&self, target: &str, extension: Option<&str>) -> (r: (
        Vec<Vec<char>>,
        Vec<String>,
        Vec<String>,
    ))
        ensures
            join_lines(lines_view(r.0@)) == filter_deleted(
                self.content@,
                target@,
                opt_str(extension),
            ).0,
            strings_view(r.1@) == filter_deleted(self.content@, target@, opt_str(extension)).1,
            strings_view(r.2@) == filter_deleted(self.content@, target@, opt_str(extension)).2,
    {
        let ls = self.lines();
        let t = chars_of(target);
        let ext = match extension {
            Some(e) => Some(chars_of(e)),
            None => None,
        };
        assert(crate::entries::opt_view(ext) == opt_str(extension));
        let tgt = node_target_exec(&t, &ext);
        let sel = match &tgt {
            Some(n) => Select::Node { name: n.clone() },
            None => Select::Text { target: t, ext: ext },
        };
        assert(sel.spec() == delete_selection(target@, opt_str(extension)));
        let before_nodes = assigned_nodes_exec(&ls);
        let (kept, files) = drop_entries_exec(&ls, &sel);
        let (left, nodes) = drop_decls_exec(&kept, &before_nodes, &tgt);
        (left, strings_of(&files), strings_of(&nodes))
    }

    /// Removes the selected entries and then the declarations of the nodes
    /// that the delete leaves empty (see `filter_deleted`). Returns the
    /// removed files and the removed nodes.
    pub fn delete_files_and_filters(&mut self, target: &str, extension: Option<&str>) -> (r: (
        Vec<String>,
        Vec<String>,
    ))
        ensures
            final(self).path == old(self).path,
            final(self).content@ == filter_deleted(old(self).content@, target@, opt_str(extension)).0,
            strings_view(r.0@) == filter_deleted(old(self).content@, target@, opt_str(extension)).1,
            strings_view(r.1@) == filter_deleted(old(self).content@, target@, opt_str(extension)).2,
    {
        let (left, files, nodes) = self.delete_parts(target, extension);
        self.set_lines(&left);
        (files, nodes)
    }

    /// What `delete_files_and_filters` would remove, the text left as it is.
    pub fn preview_delete_files_and_filters(&self, target: &str, extension: Option<&str>) -> (r: (
        Vec<String>,
        Vec<String>,
    ))
        ensures
            strings_view(r.0@) == filter_deleted(self.content@, target@, opt_str(extension)).1,
            strings_view(r.1@) == filter_deleted(self.content@, target@, opt_str(extension)).2,
    {
        let (_left, files, nodes) = self.delete_parts(target, extension);
        (files, nodes)
    }

    /// The nodes that adding these files would declare, in order.
    pub fn nodes_to_declare(&self, project_files: &Vec<String>, scan_files: &Vec<String>) -> (r:
        Vec<String>)
        requires
            project_files.len() == scan_files.len(),
        ensures
            strings_view(r@) == nodes_to_add(
                split_lines(self.content@),
                strings_view(project_files@),
                strings_view(scan_files@),
            ),
    {
        let ls = self.lines();
        let p = lines_of_strings(project_files);
        let s = lines_of_strings(scan_files);
        let wanted = dedup_exec(&wanted_nodes_exec(&p, &s));
        let nodes = absent_exec(&wanted, &declared_exec(&ls));
        strings_of(&nodes)
    }

    /// Adds the source files among `project_files`: each is registered under
    /// its project path and assigned to the node named by the directory of
    /// the same file in `scan_files`, or to no node when that directory is
    /// empty. Each node not yet declared is declared with the next of `ids`.
    pub fn add_source_files_with_ids(
        &mut self,
        project_files: &Vec<String>,
        scan_files: &Vec<String>,
        ids: &Vec<String>,
    )
        requires
            project_files.len() == scan_files.len(),
            ids.len() == nodes_to_add(
                split_lines(old(self).content@),
                strings_view(project_files@),
                strings_view(scan_files@),
            ).len(),
        ensures
            final(self).path == old(self).path,
            final(self).content@ == join_lines(
                hierarchy_added(
                    split_lines(old(self).content@),
                    strings_view(project_files@),
                    strings_view(scan_files@),
                    strings_view(ids@),
                ),
            ),
    {
        let ls = self.lines();
        let p = lines_of_strings(project_files);
        let s = lines_of_strings(scan_files);
        let idv = lines_of_strings(ids);
        let wanted = dedup_exec(&wanted_nodes_exec(&p, &s));
        let nodes = absent_exec(&wanted, &declared_exec(&ls));
        let decls = decl_lines_exec(&nodes, &idv);
        let with_decls = place_lines_exec(&ls, &chars_of("<Filter Include="), decls);
        let entries = entry_lines_exec(&p, &s);
        let out = place_lines_exec(&with_decls, &chars_of("<ClCompile Include="), entries);
        self.set_lines(&out);
    }

    /// `add_source_files_with_ids` with a fresh identifier for each new node.
    pub fn add_source_files_with_hierarchy(
        &mut self,
        project_files: &Vec<String>,
        scan_files: &Vec<String>,
    )
        requires
            project_files.len() == scan_files.len(),
        ensures
            final(self).path == old(self).path,
            exists|ids: Seq<Seq<char>>|
                {
                    &&& ids.len() == nodes_to_add(
                        split_lines(old(self).content@),
                        strings_view(project_files@),
                        strings_view(scan_files@),
                    ).len()
                    &&& forall|k: int| 0 <= k < ids.len() ==> is_identifier(#[trigger] ids[k])
                    &&& final(self).content@ == join_lines(
                        hierarchy_added(
                            split_lines(old(self).content@),
                            strings_view(project_files@),
                            strings_view(scan_files@),
                            ids,
                        ),
                    )
                },
    {
        let nodes = self.nodes_to_declare(project_files, scan_files);
        let mut ids: Vec<String> = Vec::new();
        let mut k: usize = 0;
        while k < nodes.len()
            invariant
                k <= nodes.len(),
                ids.len() == k,
                forall|j: int| 0 <= j < k ==> is_identifier(#[trigger] strings_view(ids@)[j]),
            decreases nodes.len() - k,
        {
            let id = new_identifier();
            let ghost i0 = ids@;
            ids.push(id);
            assert(strings_view(ids@) =~= strings_view(i0).push(id@));
            k += 1;
        }
        self.add_source_files_with_ids(project_files, scan_files, &ids);
        assert(forall|j: int|
            0 <= j < strings_view(ids@).len() ==> is_identifier(#[trigger] strings_view(ids@)[j]));
    }

    /// Renames node `from` to `to` when `to` is not declared: its
    /// declaration and every assignment to it now read `to`. When `to` is
    /// declared already nothing changes and the first result is `true`: the
    /// caller is to merge instead. The files are those assigned to the new
    /// name (or, when `to` exists, those a merge would move).
    pub fn rename_filter(&mut self, from: &str, to: &str) -> (r: Result<
        (bool, Vec<String>),
        ProjectError,
    >)
        ensures
            final(self).path == old(self).path,
            match r {
                Err(e) => {
                    &&& rename_outcome(old(self).content@, from@, to@) is None
                    &&& final(self).content == old(self).content
                    &&& e matches ProjectError::NotFound { name }
                    &&& name@ == from@
                },
                Ok((exists, files)) => rename_outcome(old(self).content@, from@, to@) == Some(
                    (final(self).content@, exists, strings_view(files@)),
                ),
            },
    {
        let ls = self.lines();
        let f = chars_of(from);
        let t = chars_of(to);
        let decls = declared_exec(&ls);
        if !contains_line(&decls, &f) {
            return Err(ProjectError::NotFound { name: string_of(&f) });
        }
        if contains_line(&decls, &t) {
            let a = assignments_exec(&ls);
            return Ok((true, strings_of(&files_of_exec(&a, &f))));
        }
        let mut n: Vec<Vec<char>> = Vec::new();
        let mut i: usize = 0;
        while i < ls.len()
            invariant
                i <= ls.len(),
                lines_view(n@) == renamed_lines(lines_view(ls@), f@, t@).take(i as int),
            decreases ls.len() - i,
        {
            push_line(&mut n, &renamed_line_exec(&ls[i], &f, &t));
            assert(lines_view(n@) =~= renamed_lines(lines_view(ls@), f@, t@).take(i + 1));
            i += 1;
        }
        assert(renamed_lines(lines_view(ls@), f@, t@).take(ls.len() as int) =~= renamed_lines(
            lines_view(ls@),
            f@,
            t@,
        ));
        let a = assignments_exec(&n);
        let files = strings_of(&files_of_exec(&a, &t));
        self.set_lines(&n);
        Ok((false, files))
    }

    /// Reassigns every file of node `from` to `to`, then removes the
    /// declaration of `from`; the declaration of `to` is left as it is.
    /// Returns the moved files.
    pub fn merge_filters(&mut self, from: &str, to: &str) -> (r: Vec<String>)
        ensures
            final(self).path == old(self).path,
            final(self).content@ == merged(old(self).content@, from@, to@).0,
            strings_view(r@) == merged(old(self).content@, from@, to@).1,
    {
        let f = chars_of(from);
        let t = chars_of(to);
        if same_chars(&f, &t) {
            return Vec::new();
        }
        let ls = self.lines();
        let (m, moved) = merge_exec(&ls, &f, &t);
        let out = drop_named_exec(&m, &f);
        self.set_lines(&out);
        strings_of(&moved)
    }

    /// Each assigned file with its node, in document order.
    pub fn get_file_filters(&self) -> (r: Vec<(String, String)>)
        ensures
            string_pairs_view(r@) == assignments(split_lines(self.content@)),
    {
        let ls = self.lines();
        let a = assignments_exec(&ls);
        let mut r: Vec<(String, String)> = Vec::new();
        let mut i: usize = 0;
        while i < a.len()
            invariant
                i <= a.len(),
                string_pairs_view(r@) == pairs_view(a@).take(i as int),
            decreases a.len() - i,
        {
            let ghost r0 = r@;
            let x = (string_of(&a[i].0), string_of(&a[i].1));
            r.push(x);
            assert(r@ == r0.push(x));
            assert(string_pairs_view(r@) =~= string_pairs_view(r0).push((x.0@, x.1@)));
            assert(pairs_view(a@).take(i + 1) =~= pairs_view(a@).take(i as int).push(
                (a@[i as int].0@, a@[i as int].1@),
            ));
            assert(string_pairs_view(r@) =~= pairs_view(a@).take(i + 1));
            i += 1;
        }
        assert(pairs_view(a@).take(a.len() as int) =~= pairs_view(a@));
        r
    }

    /// Each declared node, once, with the files assigned to it.
    pub fn get_all_filters(&self) -> (r: Vec<(String, Vec<String>)>)
        ensures
            groups_view(r@) == node_files(split_lines(self.content@)),
    {
        let ls = self.lines();
        let names = dedup_exec(&declared_exec(&ls));
        let a = assignments_exec(&ls);
        let ghost want = node_files(lines_view(ls@));
        let mut r: Vec<(String, Vec<String>)> = Vec::new();
        let mut i: usize = 0;
        while i < names.len()
            invariant
                i <= names.len(),
                lines_view(names@) == dedup(declared(lines_view(ls@))),
                pairs_view(a@) == assignments(lines_view(ls@)),
                want == node_files(lines_view(ls@)),
                groups_view(r@) == want.take(i as int),
            decreases names.len() - i,
        {
            let files = strings_of(&files_of_exec(&a, &names[i]));
            let ghost r0 = r@;
            let x = (string_of(&names[i]), files);
            r.push(x);
            assert(r@ == r0.push(x));
            assert(groups_view(r@) =~= groups_view(r0).push((x.0@, strings_view(x.1@))));
            assert(want[i as int] == (lines_view(names@)[i as int], files_of(
                assignments(lines_view(ls@)),
                lines_view(names@)[i as int],
            )));
            assert(want.take(i + 1) =~= want.take(i as int).push(want[i as int]));
            assert(groups_view(r@) =~= want.take(i + 1));
            i += 1;
        }
        assert(want.take(names.len() as int) =~= want);
        r
    }
}

} // verus!

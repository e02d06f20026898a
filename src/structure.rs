//! The hierarchy view: files and nodes of both documents gathered into a
//! tree, with ancestors of named nodes filled in, and drawn as text with a
//! depth limit and, on request, without empty folders.
use vstd::prelude::*;
use crate::entries::same_chars;
use crate::filters::{
    assignments, assignments_exec, dedup, dedup_exec, groups_view, node_files, pairs_view,
    FilterFile,
};
use crate::order::{sort_exec, sorted};
use crate::paths::{file_name, file_name_exec, last_of, last_of_exec};
use crate::project::{ProjectFile, VcxprojFile};
use crate::entries::{entry_paths};
use crate::text::{
    append, chars_of, lines_view, push_line, slice_of, split_lines, string_of,
};

verus! {

/// A project as the view shows it: its name, its files with their nodes,
/// and the declared nodes with their files.
pub struct ProjectStructure {
    pub name: String,
    pub files: Vec<ProjectFile>,
    pub filters: Vec<(String, Vec<String>)>,
}

pub open spec fn opt_string(o: Option<String>) -> Option<Seq<char>> {
    match o {
        Some(s) => Some(s@),
        None => None,
    }
}

pub open spec fn file_pairs(files: Seq<ProjectFile>) -> Seq<(Seq<char>, Option<Seq<char>>)> {
    files.map_values(|f: ProjectFile| (f.path@, opt_string(f.filter)))
}

/// The node of the last assignment of file `p`.
pub open spec fn lookup(asg: Seq<(Seq<char>, Seq<char>)>, p: Seq<char>) -> Option<Seq<char>>
    decreases asg.len(),
{
    if asg.len() == 0 {
        None
    } else if asg.last().0 == p {
        Some(asg.last().1)
    } else {
        lookup(asg.drop_last(), p)
    }
}

/// The node that holds node `m`, `None` for a node at the top.
pub open spec fn parent_of(m: Seq<char>) -> Option<Seq<char>> {
    let k = last_of(m, '\\', '\\', m.len() as int);
    if k < 0 {
        None
    } else {
        Some(m.take(k))
    }
}

/// The name that a node shows: its last segment.
pub open spec fn last_segment(m: Seq<char>) -> Seq<char> {
    m.skip(last_of(m, '\\', '\\', m.len() as int) + 1)
}

/// The ancestors of node `b` named by its segments from index `j` on.
pub open spec fn prefixes_from(b: Seq<char>, j: int) -> Seq<Seq<char>>
    decreases b.len() - j,
{
    if j < 0 || j >= b.len() {
        seq![]
    } else if b[j] == '\\' {
        seq![b.take(j)] + prefixes_from(b, j + 1)
    } else {
        prefixes_from(b, j + 1)
    }
}

pub open spec fn with_ancestors(bases: Seq<Seq<char>>) -> Seq<Seq<char>>
    decreases bases.len(),
{
    if bases.len() == 0 {
        seq![]
    } else {
        with_ancestors(bases.drop_last()) + prefixes_from(bases.last(), 0) + seq![bases.last()]
    }
}

/// The nodes that files are assigned to, in order.
pub open spec fn assigned_of(files: Seq<(Seq<char>, Option<Seq<char>>)>) -> Seq<Seq<char>>
    decreases files.len(),
{
    if files.len() == 0 {
        seq![]
    } else {
        let r = assigned_of(files.drop_last());
        match files.last().1 {
            Some(n) => r.push(n),
            None => r,
        }
    }
}

/// Every node of the tree: each assigned or declared node and all its ancestors.
pub open spec fn tree_nodes(files: Seq<(Seq<char>, Option<Seq<char>>)>, names: Seq<Seq<char>>) -> Seq<
    Seq<char>,
> {
    dedup(with_ancestors(assigned_of(files) + names))
}

pub open spec fn child_list(nodes: Seq<Seq<char>>, p: Option<Seq<char>>) -> Seq<Seq<char>>
    decreases nodes.len(),
{
    if nodes.len() == 0 {
        seq![]
    } else {
        let r = child_list(nodes.drop_last(), p);
        if parent_of(nodes.last()) == p {
            r.push(nodes.last())
        } else {
            r
        }
    }
}

/// The nodes right below `p` (the top for `None`), sorted by name.
pub open spec fn children(nodes: Seq<Seq<char>>, p: Option<Seq<char>>) -> Seq<Seq<char>> {
    sorted(child_list(nodes, p))
}

/// The files assigned to `p` (no node for `None`), in order.
pub open spec fn paths_under(files: Seq<(Seq<char>, Option<Seq<char>>)>, p: Option<Seq<char>>) -> Seq<
    Seq<char>,
>
    decreases files.len(),
{
    if files.len() == 0 {
        seq![]
    } else {
        let r = paths_under(files.drop_last(), p);
        if files.last().1 == p {
            r.push(files.last().0)
        } else {
            r
        }
    }
}

/// What the drawing works on.
pub struct Shape {
    pub nodes: Seq<Seq<char>>,
    pub files: Seq<(Seq<char>, Option<Seq<char>>)>,
    pub files_only: bool,
    pub level: Option<usize>,
}

/// A folder at depth `d` (top nodes have depth 1) is drawn: always without
/// a limit or with limit `0` (folders only, at every depth); with limit
/// `l > 0`, when `d <= l`.
pub open spec fn folder_shown(level: Option<usize>, d: int) -> bool {
    match level {
        None => true,
        Some(l) => l == 0 || d <= l,
    }
}

/// The files of a folder at depth `d` are drawn: with limit `l`, when
/// `0 < l` and `d + 1 <= l`.
pub open spec fn files_shown(level: Option<usize>, d: int) -> bool {
    match level {
        None => true,
        Some(l) => l > 0 && d + 1 <= l,
    }
}

/// The files drawn in folder `n` at depth `d`, sorted by path.
pub open spec fn shown_files(t: Shape, n: Seq<char>, d: int) -> Seq<Seq<char>> {
    if files_shown(t.level, d) {
        sorted(paths_under(t.files, Some(n)))
    } else {
        seq![]
    }
}

/// Folder `n` at depth `d` is drawn: its depth is allowed and, when empty
/// folders are left out, it draws a file or has a drawn descendant.
pub open spec fn visible(t: Shape, n: Seq<char>, d: int, fuel: nat) -> bool
    decreases fuel, 0nat,
{
    if fuel == 0 {
        false
    } else {
        folder_shown(t.level, d) && (!t.files_only || shown_files(t, n, d).len() > 0
            || visible_among(t, children(t.nodes, Some(n)), d + 1, (fuel - 1) as nat).len() > 0)
    }
}

/// The elements of `cs` that are drawn, in order.
pub open spec fn visible_among(t: Shape, cs: Seq<Seq<char>>, d: int, fuel: nat) -> Seq<Seq<char>>
    decreases fuel, cs.len() + 1,
{
    if cs.len() == 0 {
        seq![]
    } else {
        let r = visible_among(t, cs.drop_last(), d, fuel);
        if visible(t, cs.last(), d, fuel) {
            r.push(cs.last())
        } else {
            r
        }
    }
}

pub open spec fn connector(last: bool) -> Seq<char> {
    if last {
        "└── "@
    } else {
        "├── "@
    }
}

pub open spec fn indent(last: bool) -> Seq<char> {
    if last {
        "    "@
    } else {
        "│   "@
    }
}

pub open spec fn folder_line(prefix: Seq<char>, last: bool, n: Seq<char>) -> Seq<char> {
    prefix + connector(last) + "📁 "@ + last_segment(n) + "\n"@
}

pub open spec fn file_line(prefix: Seq<char>, last: bool, p: Seq<char>) -> Seq<char> {
    prefix + connector(last) + "📄 "@ + file_name(p) + "\n"@
}

/// The first `k` files of `fs`, the item at `offset + i` of `total` items.
pub open spec fn render_files(fs: Seq<Seq<char>>, prefix: Seq<char>, total: int, offset: int, k: int) -> Seq<
    char,
>
    decreases k,
{
    if k <= 0 {
        seq![]
    } else {
        render_files(fs, prefix, total, offset, k - 1) + file_line(
            prefix,
            offset + k - 1 == total - 1,
            fs[k - 1],
        )
    }
}

/// Folder `n` at depth `d`: its line, then its drawn sub-folders, then its files.
pub open spec fn render_node(t: Shape, n: Seq<char>, prefix: Seq<char>, last: bool, d: int, fuel: nat) -> Seq<
    char,
>
    decreases fuel, 0nat,
{
    if fuel == 0 {
        seq![]
    } else {
        let cp = prefix + indent(last);
        let cs = visible_among(t, children(t.nodes, Some(n)), d + 1, (fuel - 1) as nat);
        let fs = shown_files(t, n, d);
        let total = (cs.len() + fs.len()) as int;
        folder_line(prefix, last, n) + render_children(
            t,
            cs,
            cp,
            total,
            0,
            d + 1,
            (fuel - 1) as nat,
            cs.len() as int,
        ) + render_files(fs, cp, total, cs.len() as int, fs.len() as int)
    }
}

/// The first `k` folders of `cs`, the item at `offset + i` of `total` items.
pub open spec fn render_children(
    t: Shape,
    cs: Seq<Seq<char>>,
    prefix: Seq<char>,
    total: int,
    offset: int,
    d: int,
    fuel: nat,
    k: int,
) -> Seq<char>
    decreases fuel, (if k < 0 { 0 } else { k }) + 1,
{
    if k <= 0 {
        seq![]
    } else {
        render_children(t, cs, prefix, total, offset, d, fuel, k - 1) + render_node(
            t,
            cs[k - 1],
            prefix,
            offset + k - 1 == total - 1,
            d,
            fuel,
        )
    }
}

pub open spec fn tree_header(name: Seq<char>) -> Seq<char> {
    "📁 "@ + name + ".vcxproj\n"@
}

/// Below the project line: the files assigned to no node (unless the
/// limit leaves files out at the top), then the top folders.
pub open spec fn tree_body(
    files: Seq<(Seq<char>, Option<Seq<char>>)>,
    names: Seq<Seq<char>>,
    files_only: bool,
    level: Option<usize>,
) -> Seq<char> {
    let t = Shape { nodes: tree_nodes(files, names), files, files_only, level };
    let fuel = t.nodes.len();
    let cs = visible_among(t, children(t.nodes, None), 1, fuel);
    let fs = if folder_shown(level, 1) && files_shown(level, 0) {
        paths_under(files, None)
    } else {
        seq![]
    };
    let total = (fs.len() + cs.len()) as int;
    render_files(fs, seq![], total, 0, fs.len() as int) + render_children(
        t,
        cs,
        seq![],
        total,
        fs.len() as int,
        1,
        fuel,
        cs.len() as int,
    )
}

/// The whole drawing: the project line, then the tree, or a note that the
/// project is empty.
pub open spec fn tree_text(
    name: Seq<char>,
    files: Seq<(Seq<char>, Option<Seq<char>>)>,
    names: Seq<Seq<char>>,
    files_only: bool,
    level: Option<usize>,
) -> Seq<char> {
    if files.len() == 0 && names.len() == 0 {
        tree_header(name) + "   (empty project)\n"@
    } else {
        tree_header(name) + tree_body(files, names, files_only, level)
    }
}

struct Layout {
    nodes: Vec<Vec<char>>,
    files: Vec<(Vec<char>, Option<Vec<char>>)>,
    files_only: bool,
    level: Option<usize>,
}

pub open spec fn opt_lines(o: Option<Vec<char>>) -> Option<Seq<char>> {
    match o {
        Some(v) => Some(v@),
        None => None,
    }
}

pub open spec fn file_rows(v: Seq<(Vec<char>, Option<Vec<char>>)>) -> Seq<(Seq<char>, Option<Seq<char>>)> {
    v.map_values(|p: (Vec<char>, Option<Vec<char>>)| (p.0@, opt_lines(p.1)))
}

impl Layout {
    spec fn shape(&self) -> Shape {
        Shape {
            nodes: lines_view(self.nodes@),
            files: file_rows(self.files@),
            files_only: self.files_only,
            level: self.level,
        }
    }
}

fn same_opt(a: &Option<Vec<char>>, b: &Option<Vec<char>>) -> (r: bool)
    ensures
        r == (opt_lines(*a) == opt_lines(*b)),
{
    match (a, b) {
        (Some(x), Some(y)) => same_chars(x, y),
        (None, None) => true,
        _ => false,
    }
}

fn parent_of_exec(m: &Vec<char>) -> (r: Option<Vec<char>>)
    ensures
        opt_lines(r) == parent_of(m@),
{
    match last_of_exec(m, '\\', '\\') {
        Some(k) => Some(slice_of(m, 0, k)),
        None => None,
    }
}

fn last_segment_exec(m: &Vec<char>) -> (r: Vec<char>)
    ensures
        r@ == last_segment(m@),
{
    let start = match last_of_exec(m, '\\', '\\') {
        Some(k) => k + 1,
        None => 0,
    };
    let r = slice_of(m, start, m.len());
    assert(r@ =~= last_segment(m@));
    r
}

fn children_exec(nodes: &Vec<Vec<char>>, p: &Option<Vec<char>>) -> (r: Vec<Vec<char>>)
    ensures
        lines_view(r@) == children(lines_view(nodes@), opt_lines(*p)),
{
    let ghost s = lines_view(nodes@);
    let mut r: Vec<Vec<char>> = Vec::new();
    let mut i: usize = 0;
    while i < nodes.len()
        invariant
            i <= nodes.len(),
            s == lines_view(nodes@),
            lines_view(r@) == child_list(s.take(i as int), opt_lines(*p)),
        decreases nodes.len() - i,
    {
        assert(s.take(i + 1).drop_last() =~= s.take(i as int));
        let q = parent_of_exec(&nodes[i]);
        if same_opt(&q, p) {
            push_line(&mut r, &nodes[i]);
        }
        i += 1;
    }
    assert(s.take(nodes.len() as int) =~= s);
    sort_exec(&r)
}

fn paths_under_exec(files: &Vec<(Vec<char>, Option<Vec<char>>)>, p: &Option<Vec<char>>) -> (r: Vec<
    Vec<char>,
>)
    ensures
        lines_view(r@) == paths_under(file_rows(files@), opt_lines(*p)),
{
    let ghost s = file_rows(files@);
    let mut r: Vec<Vec<char>> = Vec::new();
    let mut i: usize = 0;
    while i < files.len()
        invariant
            i <= files.len(),
            s == file_rows(files@),
            lines_view(r@) == paths_under(s.take(i as int), opt_lines(*p)),
        decreases files.len() - i,
    {
        assert(s.take(i + 1).drop_last() =~= s.take(i as int));
        if same_opt(&files[i].1, p) {
            push_line(&mut r, &files[i].0);
        }
        i += 1;
    }
    assert(s.take(files.len() as int) =~= s);
    r
}

fn folder_shown_exec(level: Option<usize>, d: usize) -> (b: bool)
    ensures
        b == folder_shown(level, d as int),
{
    match level {
        None => true,
        Some(l) => l == 0 || d <= l,
    }
}

fn files_shown_exec(level: Option<usize>, d: usize) -> (b: bool)
    ensures
        b == files_shown(level, d as int),
{
    match level {
        None => true,
        Some(l) => l > 0 && d < l,
    }
}

fn shown_files_exec(t: &Layout, n: &Vec<char>, d: usize) -> (r: Vec<Vec<char>>)
    ensures
        lines_view(r@) == shown_files(t.shape(), n@, d as int),
{
    if files_shown_exec(t.level, d) {
        let p = Some(n.clone());
        assert(opt_lines(p) == Some(n@));
        sort_exec(&paths_under_exec(&t.files, &p))
    } else {
        Vec::new()
    }
}

fn visible_exec(t: &Layout, n: &Vec<char>, d: usize, fuel: usize) -> (b: bool)
    requires
        d + fuel <= usize::MAX,
    ensures
        b == visible(t.shape(), n@, d as int, fuel as nat),
    decreases fuel, 0nat,
{
    if fuel == 0 {
        return false;
    }
    if !folder_shown_exec(t.level, d) {
        return false;
    }
    if !t.files_only {
        return true;
    }
    let fs = shown_files_exec(t, n, d);
    if fs.len() > 0 {
        return true;
    }
    let p = Some(n.clone());
    assert(opt_lines(p) == Some(n@));
    let cs = children_exec(&t.nodes, &p);
    let v = visible_among_exec(t, &cs, d + 1, fuel - 1);
    v.len() > 0
}

fn visible_among_exec(t: &Layout, cs: &Vec<Vec<char>>, d: usize, fuel: usize) -> (r: Vec<Vec<char>>)
    requires
        d + fuel <= usize::MAX,
    ensures
        lines_view(r@) == visible_among(t.shape(), lines_view(cs@), d as int, fuel as nat),
    decreases fuel, cs.len() + 1,
{
    let ghost s = lines_view(cs@);
    let mut r: Vec<Vec<char>> = Vec::new();
    let mut i: usize = 0;
    while i < cs.len()
        invariant
            i <= cs.len(),
            d + fuel <= usize::MAX,
            s == lines_view(cs@),
            lines_view(r@) == visible_among(t.shape(), s.take(i as int), d as int, fuel as nat),
        decreases cs.len() - i,
    {
        assert(s.take(i + 1).drop_last() =~= s.take(i as int));
        assert(s.take(i + 1).last() == s[i as int]);
        if visible_exec(t, &cs[i], d, fuel) {
            push_line(&mut r, &cs[i]);
        }
        i += 1;
    }
    assert(s.take(cs.len() as int) =~= s);
    r
}

fn connector_exec(last: bool) -> (r: Vec<char>)
    ensures
        r@ == connector(last),
{
    if last {
        chars_of("└── ")
    } else {
        chars_of("├── ")
    }
}

fn indent_exec(last: bool) -> (r: Vec<char>)
    ensures
        r@ == indent(last),
{
    if last {
        chars_of("    ")
    } else {
        chars_of("│   ")
    }
}

fn render_files_exec(
    fs: &Vec<Vec<char>>,
    prefix: &Vec<char>,
    total: Ghost<int>,
    offset: Ghost<int>,
    after: usize,
    out: &mut Vec<char>,
)
    requires
        total@ == offset@ + fs.len() + after,
    ensures
        final(out)@ == old(out)@ + render_files(
            lines_view(fs@),
            prefix@,
            total@,
            offset@,
            fs.len() as int,
        ),
{
    let mut k: usize = 0;
    while k < fs.len()
        invariant
            k <= fs.len(),
            total@ == offset@ + fs.len() + after,
            out@ == old(out)@ + render_files(lines_view(fs@), prefix@, total@, offset@, k as int),
        decreases fs.len() - k,
    {
        let last = k + 1 == fs.len() && after == 0;
        append(out, prefix);
        append(out, &connector_exec(last));
        append(out, &chars_of("📄 "));
        append(out, &file_name_exec(&fs[k]));
        append(out, &chars_of("\n"));
        assert(out@ =~= old(out)@ + render_files(
            lines_view(fs@),
            prefix@,
            total@,
            offset@,
            k + 1,
        ));
        k += 1;
    }
}

/// Appends folder `n` at depth `d`: its line, its drawn sub-folders, its files.
#[verifier::rlimit(100)]
fn display_filter_recursive(
    t: &Layout,
    n: &Vec<char>,
    prefix: &Vec<char>,
    last: bool,
    d: usize,
    fuel: usize,
    out: &mut Vec<char>,
)
    requires
        d + fuel <= usize::MAX,
    ensures
        final(out)@ == old(out)@ + render_node(t.shape(), n@, prefix@, last, d as int, fuel as nat),
    decreases fuel, 0nat,
{
    if fuel == 0 {
        assert(old(out)@ + seq![] =~= old(out)@);
        return;
    }
    let ghost sh = t.shape();
    let cp = crate::text::concat(prefix, &indent_exec(last));
    let p = Some(n.clone());
    assert(opt_lines(p) == Some(n@));
    let cs = visible_among_exec(t, &children_exec(&t.nodes, &p), d + 1, fuel - 1);
    let fs = shown_files_exec(t, n, d);
    let ghost total = cs.len() + fs.len();
    let mut head = crate::text::concat(prefix, &connector_exec(last));
    append(&mut head, &chars_of("📁 "));
    append(&mut head, &last_segment_exec(n));
    append(&mut head, &chars_of("\n"));
    assert(head@ == folder_line(prefix@, last, n@));
    append(out, &head);
    render_children_exec(t, &cs, &cp, Ghost(total), Ghost(0), fs.len(), d + 1, fuel - 1, out);
    render_files_exec(&fs, &cp, Ghost(total), Ghost(cs.len() as int), 0, out);
    proof {
        let rc = render_children(
            sh,
            lines_view(cs@),
            cp@,
            total,
            0,
            d + 1,
            (fuel - 1) as nat,
            cs.len() as int,
        );
        let rf = render_files(lines_view(fs@), cp@, total, cs.len() as int, fs.len() as int);
        assert(render_node(sh, n@, prefix@, last, d as int, fuel as nat) == folder_line(
            prefix@,
            last,
            n@,
        ) + rc + rf);
        assert(out@ =~= old(out)@ + (folder_line(prefix@, last, n@) + rc + rf));
    }
}

fn render_children_exec(
    t: &Layout,
    cs: &Vec<Vec<char>>,
    prefix: &Vec<char>,
    total: Ghost<int>,
    offset: Ghost<int>,
    after: usize,
    d: usize,
    fuel: usize,
    out: &mut Vec<char>,
)
    requires
        d + fuel <= usize::MAX,
        total@ == offset@ + cs.len() + after,
    ensures
        final(out)@ == old(out)@ + render_children(
            t.shape(),
            lines_view(cs@),
            prefix@,
            total@,
            offset@,
            d as int,
            fuel as nat,
            cs.len() as int,
        ),
    decreases fuel, cs.len() + 1,
{
    let mut k: usize = 0;
    while k < cs.len()
        invariant
            k <= cs.len(),
            d + fuel <= usize::MAX,
            total@ == offset@ + cs.len() + after,
            out@ == old(out)@ + render_children(
                t.shape(),
                lines_view(cs@),
                prefix@,
                total@,
                offset@,
                d as int,
                fuel as nat,
                k as int,
            ),
        decreases cs.len() - k,
    {
        let last = k + 1 == cs.len() && after == 0;
        display_filter_recursive(t, &cs[k], prefix, last, d, fuel, out);
        assert(out@ =~= old(out)@ + render_children(
            t.shape(),
            lines_view(cs@),
            prefix@,
            total@,
            offset@,
            d as int,
            fuel as nat,
            k + 1,
        ));
        k += 1;
    }
}

fn prefixes_exec(b: &Vec<char>, out: &mut Vec<Vec<char>>)
    ensures
        lines_view(final(out)@) == lines_view(old(out)@) + prefixes_from(b@, 0),
{
    let mut j: usize = 0;
    while j < b.len()
        invariant
            j <= b.len(),
            lines_view(out@) + prefixes_from(b@, j as int) == lines_view(old(out)@) + prefixes_from(
                b@,
                0,
            ),
        decreases b.len() - j,
    {
        let ghost o0 = lines_view(out@);
        if b[j] == '\\' {
            push_line(out, &slice_of(b, 0, j));
        }
        assert(lines_view(out@) + prefixes_from(b@, j + 1) =~= o0 + prefixes_from(b@, j as int));
        j += 1;
    }
    assert(lines_view(out@) + prefixes_from(b@, b.len() as int) =~= lines_view(out@));
}

fn tree_nodes_exec(files: &Vec<(Vec<char>, Option<Vec<char>>)>, names: &Vec<Vec<char>>) -> (r: Vec<
    Vec<char>,
>)
    ensures
        lines_view(r@) == tree_nodes(file_rows(files@), lines_view(names@)),
{
    let ghost fr = file_rows(files@);
    let mut bases: Vec<Vec<char>> = Vec::new();
    let mut i: usize = 0;
    while i < files.len()
        invariant
            i <= files.len(),
            fr == file_rows(files@),
            lines_view(bases@) == assigned_of(fr.take(i as int)),
        decreases files.len() - i,
    {
        assert(fr.take(i + 1).drop_last() =~= fr.take(i as int));
        match &files[i].1 {
            Some(n) => {
                push_line(&mut bases, n);
            },
            None => {},
        }
        i += 1;
    }
    assert(fr.take(files.len() as int) =~= fr);
    crate::text::extend_lines(&mut bases, names, 0, names.len());
    assert(lines_view(names@).subrange(0, names.len() as int) =~= lines_view(names@));
    let ghost bs = lines_view(bases@);
    let mut all: Vec<Vec<char>> = Vec::new();
    let mut k: usize = 0;
    while k < bases.len()
        invariant
            k <= bases.len(),
            bs == lines_view(bases@),
            lines_view(all@) == with_ancestors(bs.take(k as int)),
        decreases bases.len() - k,
    {
        assert(bs.take(k + 1).drop_last() =~= bs.take(k as int));
        prefixes_exec(&bases[k], &mut all);
        push_line(&mut all, &bases[k]);
        k += 1;
    }
    assert(bs.take(bases.len() as int) =~= bs);
    dedup_exec(&all)
}

fn lookup_exec(asg: &Vec<(Vec<char>, Vec<char>)>, p: &Vec<char>) -> (r: Option<Vec<char>>)
    ensures
        opt_lines(r) == lookup(pairs_view(asg@), p@),
{
    let ghost a = pairs_view(asg@);
    let mut e = asg.len();
    assert(a.take(e as int) =~= a);
    while e > 0
        invariant
            e <= asg.len(),
            a == pairs_view(asg@),
            lookup(a, p@) == lookup(a.take(e as int), p@),
        decreases e,
    {
        assert(a.take(e as int).drop_last() =~= a.take(e - 1));
        if same_chars(&asg[e - 1].0, p) {
            return Some(asg[e - 1].1.clone());
        }
        e -= 1;
    }
    None
}

/// The node that the filter document, if any, assigns file `p` to.
pub open spec fn assigned_node(filters: Option<&FilterFile>, p: Seq<char>) -> Option<Seq<char>> {
    match filters {
        Some(f) => lookup(assignments(split_lines(f.content@)), p),
        None => None,
    }
}

impl ProjectStructure {
    /// The view of a project: its compile entries, each with the node its
    /// last assignment in the filter document names, and the declared nodes
    /// with their files. Without a filter document no file has a node.
    pub fn from_project(name: &str, project: &VcxprojFile, filters: Option<&FilterFile>) -> (r:
        ProjectStructure)
        ensures
            r.name@ == name@,
            r.files@.len() == entry_paths(split_lines(project.content@), 0).len(),
            forall|i: int|
                0 <= i < r.files@.len() ==> #[trigger] r.files@[i].path@ == entry_paths(
                    split_lines(project.content@),
                    0,
                )[i] && opt_string(r.files@[i].filter) == assigned_node(filters, r.files@[i].path@),
            groups_view(r.filters@) == match filters {
                Some(f) => node_files(split_lines(f.content@)),
                None => Seq::empty(),
            },
    {
        let listed = project.get_project_files();
        let ghost paths = entry_paths(split_lines(project.content@), 0);
        let groups = match filters {
            Some(f) => f.get_all_filters(),
            None => Vec::new(),
        };
        let asg = match filters {
            Some(f) => assignments_exec(&f.lines()),
            None => Vec::new(),
        };
        let mut files: Vec<ProjectFile> = Vec::new();
        let mut i: usize = 0;
        while i < listed.len()
            invariant
                i <= listed.len(),
                listed@.len() == paths.len(),
                forall|j: int| 0 <= j < listed@.len() ==> listed@[j].path@ == paths[j],
                filters is Some ==> pairs_view(asg@) == assignments(
                    split_lines(filters->0.content@),
                ),
                filters is None ==> asg@.len() == 0,
                files@.len() == i,
                forall|j: int|
                    0 <= j < i ==> #[trigger] files@[j].path@ == paths[j] && opt_string(
                        files@[j].filter,
                    ) == assigned_node(filters, files@[j].path@),
            decreases listed.len() - i,
        {
            let pc = chars_of(listed[i].path.as_str());
            let node = lookup_exec(&asg, &pc);
            proof {
                if filters is None {
                    assert(pairs_view(asg@) =~= Seq::empty());
                }
            }
            let filter = match node {
                Some(n) => Some(string_of(&n)),
                None => None,
            };
            assert(opt_string(filter) == opt_lines(node));
            let x = ProjectFile { path: string_of(&pc), filter };
            let ghost f0 = files@;
            files.push(x);
            assert(files@ == f0.push(x));
            assert(x.path@ == paths[i as int]);
            assert(opt_string(x.filter) == assigned_node(filters, x.path@));
            assert(forall|j: int| 0 <= j < i ==> files@[j] == f0[j]);
            i += 1;
        }
        ProjectStructure { name: string_of(&chars_of(name)), files, filters: groups }
    }

    fn layout_rows(&self) -> (r: Vec<(Vec<char>, Option<Vec<char>>)>)
        ensures
            file_rows(r@) == file_pairs(self.files@),
    {
        let mut r: Vec<(Vec<char>, Option<Vec<char>>)> = Vec::new();
        let mut i: usize = 0;
        while i < self.files.len()
            invariant
                i <= self.files.len(),
                file_rows(r@) == file_pairs(self.files@).take(i as int),
            decreases self.files.len() - i,
        {
            let f = &self.files[i];
            let node = match &f.filter {
                Some(n) => Some(chars_of(n.as_str())),
                None => None,
            };
            let row = (chars_of(f.path.as_str()), node);
            let ghost r0 = r@;
            r.push(row);
            assert(r@ == r0.push(row));
            assert(file_rows(r@) =~= file_rows(r0).push((row.0@, opt_lines(row.1))));
            assert(file_rows(r@) =~= file_pairs(self.files@).take(i + 1));
            i += 1;
        }
        assert(file_pairs(self.files@).take(self.files.len() as int) =~= file_pairs(self.files@));
        r
    }

    /// The names of the declared nodes, in order.
    pub open spec fn node_names(&self) -> Seq<Seq<char>> {
        self.filters@.map_values(|g: (String, Vec<String>)| g.0@)
    }

    /// Appends the files at the top and the top folders with everything below them.
    fn display_hierarchical_tree(
        &self,
        rows: Vec<(Vec<char>, Option<Vec<char>>)>,
        names: &Vec<Vec<char>>,
        files_only: bool,
        level: Option<usize>,
        out: &mut Vec<char>,
    )
        requires
            tree_nodes(file_rows(rows@), lines_view(names@)).len() < usize::MAX,
        ensures
            final(out)@ == old(out)@ + tree_body(file_rows(rows@), lines_view(names@), files_only, level),
    {
        let nodes = tree_nodes_exec(&rows, names);
        let ghost fr = file_rows(rows@);
        let t = Layout { nodes, files: rows, files_only, level };
        let fuel = t.nodes.len();
        let cs = visible_among_exec(&t, &children_exec(&t.nodes, &None), 1, fuel);
        let fs = if folder_shown_exec(level, 1) && files_shown_exec(level, 0) {
            paths_under_exec(&t.files, &None)
        } else {
            Vec::new()
        };
        let ghost total = fs.len() + cs.len();
        let top: Vec<char> = Vec::new();
        assert(top@ =~= Seq::<char>::empty());
        render_files_exec(&fs, &top, Ghost(total), Ghost(0), cs.len(), out);
        render_children_exec(&t, &cs, &top, Ghost(total), Ghost(fs.len() as int), 0, 1, fuel, out);
        proof {
            assert(t.shape() == Shape {
                nodes: tree_nodes(fr, lines_view(names@)),
                files: fr,
                files_only,
                level,
            });
            assert(final(out)@ =~= old(out)@ + tree_body(fr, lines_view(names@), files_only, level));
        }
    }

    /// The tree as text (see `tree_text`): folders sorted by name, files of
    /// a folder sorted by path, at most `level` levels when given, and,
    /// with `files_only`, no folder that draws nothing.
    pub fn display_tree(&self, files_only: bool, _show_extensions: bool, level: Option<usize>) -> (r:
        String)
        requires
            tree_nodes(file_pairs(self.files@), self.node_names()).len() < usize::MAX,
        ensures
            r@ == tree_text(self.name@, file_pairs(self.files@), self.node_names(), files_only, level),
    {
        let rows = self.layout_rows();
        let mut names: Vec<Vec<char>> = Vec::new();
        let mut i: usize = 0;
        while i < self.filters.len()
            invariant
                i <= self.filters.len(),
                lines_view(names@) == self.node_names().take(i as int),
            decreases self.filters.len() - i,
        {
            push_line(&mut names, &chars_of(self.filters[i].0.as_str()));
            assert(lines_view(names@) =~= self.node_names().take(i + 1));
            i += 1;
        }
        assert(self.node_names().take(self.filters.len() as int) =~= self.node_names());
        let mut out = chars_of("📁 ");
        append(&mut out, &chars_of(self.name.as_str()));
        append(&mut out, &chars_of(".vcxproj\n"));
        if rows.len() == 0 && names.len() == 0 {
            append(&mut out, &chars_of("   (empty project)\n"));
            return string_of(&out);
        }
        self.display_hierarchical_tree(rows, &names, files_only, level, &mut out);
        string_of(&out)
    }
}

} // verus!

//! Properties that hold across operations, stated over the specifications
//! that the operations' contracts use, and proved.
use vstd::prelude::*;
use vstd::seq_lib::lemma_multiset_commutative;
use crate::entries::{
    drop_entries, element_end, entry_end, entry_marker, entry_paths, is_entry, line_selected,
    selected, Selection,
};
use crate::filters::{
    assignments, between_tags, decl_close, declared, declared_from, delete_selection, drop_decls,
    drop_named, files_of, filter_deleted, include_eq, is_decl, merge_from, merged, node_target,
    rename_outcome, renamed_line, renamed_lines,
};
use crate::markup::{attr_value, include_attr, opt_seq};
use crate::project::deleted;
use crate::structure::{children, folder_shown, paths_under, visible, visible_among, Shape};
use crate::text::{
    find_from, join_lines, lemma_find_from, lemma_join_split, lines_from, matches_at, newline,
    replace_all, replace_from, split_lines,
};

verus! {

pub open spec fn no_newline(l: Seq<char>) -> bool {
    !l.contains('\n')
}

pub open spec fn all_single(ls: Seq<Seq<char>>) -> bool {
    forall|k: int| 0 <= k < ls.len() ==> no_newline(#[trigger] ls[k])
}

proof fn lemma_nl_match(s: Seq<char>, j: int)
    ensures
        matches_at(s, newline(), j) <==> (0 <= j < s.len() && s[j] == '\n'),
{
    if 0 <= j < s.len() && s[j] == '\n' {
        assert(s.subrange(j, j + 1) =~= newline());
    }
    if matches_at(s, newline(), j) {
        assert(s.subrange(j, j + 1)[0] == '\n');
    }
}

/// `find_from` is the first match: any index with a match and none before it.
proof fn lemma_find_is(s: Seq<char>, p: Seq<char>, from: int, i: int)
    requires
        0 <= from <= i,
        matches_at(s, p, i),
        forall|j: int| from <= j < i ==> !matches_at(s, p, j),
    ensures
        find_from(s, p, from) == Some(i),
    decreases i - from,
{
    if from < i {
        lemma_find_is(s, p, from + 1, i);
    }
}

proof fn lemma_find_none(s: Seq<char>, p: Seq<char>, from: int)
    requires
        0 <= from,
        forall|j: int| from <= j ==> !matches_at(s, p, j),
    ensures
        find_from(s, p, from) is None,
    decreases s.len() + 1 - from,
{
    if from + p.len() <= s.len() {
        lemma_find_none(s, p, from + 1);
    }
}

/// The lines of a text that ends with a newline and then a line `b`.
proof fn lemma_lines_append(a: Seq<char>, b: Seq<char>, from: int)
    requires
        0 <= from <= a.len(),
        no_newline(b),
    ensures
        lines_from(a + newline() + b, from) == lines_from(a, from) + seq![b],
    decreases a.len() - from,
{
    let s = a + newline() + b;
    lemma_find_from(a, newline(), from);
    assert forall|j: int| 0 <= j < a.len() implies (matches_at(s, newline(), j) <==> matches_at(
        a,
        newline(),
        j,
    )) by {
        lemma_nl_match(s, j);
        lemma_nl_match(a, j);
    }
    match find_from(a, newline(), from) {
        Some(i) => {
            lemma_nl_match(a, i);
            lemma_find_is(s, newline(), from, i);
            assert(s.subrange(from, i) =~= a.subrange(from, i));
            lemma_lines_append(a, b, i + 1);
            assert(lines_from(s, from) == seq![s.subrange(from, i)] + lines_from(s, i + 1));
            assert(lines_from(a, from) == seq![a.subrange(from, i)] + lines_from(a, i + 1));
            assert(seq![a.subrange(from, i)] + (lines_from(a, i + 1) + seq![b]) =~= (seq![
                a.subrange(from, i),
            ] + lines_from(a, i + 1)) + seq![b]);
        },
        None => {
            let k = a.len() as int;
            lemma_nl_match(s, k);
            assert forall|j: int| from <= j < k implies !matches_at(s, newline(), j) by {
                lemma_nl_match(a, j);
            }
            lemma_find_is(s, newline(), from, k);
            assert forall|j: int| k + 1 <= j implies !matches_at(s, newline(), j) by {
                lemma_nl_match(s, j);
                if 0 <= j < s.len() && s[j] == '\n' {
                    assert(b[j - k - 1] == '\n');
                    assert(b.contains('\n'));
                }
            }
            lemma_find_none(s, newline(), k + 1);
            assert(s.subrange(from, k) =~= a.skip(from));
            assert(s.skip(k + 1) =~= b);
            assert(lines_from(s, k + 1) == seq![s.skip(k + 1)]);
            assert(lines_from(s, from) == seq![s.subrange(from, k)] + lines_from(s, k + 1));
            assert(lines_from(a, from) == seq![a.skip(from)]);
            assert(lines_from(s, from) =~= lines_from(a, from) + seq![b]);
        },
    }
}

proof fn lemma_lines_single(b: Seq<char>)
    requires
        no_newline(b),
    ensures
        lines_from(b, 0) == seq![b],
{
    assert forall|j: int| 0 <= j implies !matches_at(b, newline(), j) by {
        lemma_nl_match(b, j);
        if 0 <= j < b.len() && b[j] == '\n' {
            assert(b.contains('\n'));
        }
    }
    lemma_find_none(b, newline(), 0);
    assert(b.skip(0) =~= b);
}

/// Splitting joined lines gives the lines back, when none holds a newline.
pub proof fn lemma_split_join(ls: Seq<Seq<char>>)
    requires
        ls.len() >= 1,
        all_single(ls),
    ensures
        split_lines(join_lines(ls)) == ls,
    decreases ls.len(),
{
    if ls.len() == 1 {
        assert(no_newline(ls[0]));
        lemma_lines_single(ls[0]);
        assert(seq![ls[0]] =~= ls);
    } else {
        let init = ls.drop_last();
        assert(all_single(init)) by {
            assert forall|k: int| 0 <= k < init.len() implies no_newline(#[trigger] init[k]) by {
                assert(init[k] == ls[k]);
            }
        }
        lemma_split_join(init);
        assert(no_newline(ls[ls.len() - 1]));
        lemma_lines_append(join_lines(init), ls.last(), 0);
        assert(init + seq![ls.last()] =~= ls);
    }
}

/// No line of a split text holds a newline.
pub proof fn lemma_split_single(s: Seq<char>, from: int)
    requires
        0 <= from <= s.len(),
    ensures
        all_single(lines_from(s, from)),
    decreases s.len() - from,
{
    lemma_find_from(s, newline(), from);
    match find_from(s, newline(), from) {
        Some(i) => {
            lemma_split_single(s, i + 1);
            let piece = s.subrange(from, i);
            assert(no_newline(piece)) by {
                if piece.contains('\n') {
                    let j = choose|j: int| 0 <= j < piece.len() && piece[j] == '\n';
                    lemma_nl_match(s, from + j);
                }
            }
            let all = lines_from(s, from);
            assert forall|k: int| 0 <= k < all.len() implies no_newline(#[trigger] all[k]) by {
                if k > 0 {
                    assert(all[k] == lines_from(s, i + 1)[k - 1]);
                }
            }
        },
        None => {
            let rest = s.skip(from);
            assert(no_newline(rest)) by {
                if rest.contains('\n') {
                    let j = choose|j: int| 0 <= j < rest.len() && rest[j] == '\n';
                    lemma_nl_match(s, from + j);
                }
            }
        },
    }
}


/// No line from `i` on is an entry that the selection takes.
pub open spec fn none_taken(ls: Seq<Seq<char>>, target: Seq<char>, ext: Option<Seq<char>>, i: int) -> bool {
    forall|j: int| i <= j < ls.len() ==> !(is_entry(#[trigger] ls[j]) && line_selected(ls[j], target, ext))
}

proof fn lemma_nothing_taken(ls: Seq<Seq<char>>, target: Seq<char>, ext: Option<Seq<char>>, i: int)
    requires
        0 <= i,
        none_taken(ls, target, ext, i),
    ensures
        drop_entries(ls, Selection::Text { target, ext }, i).1.len() == 0,
    decreases ls.len() - i,
{
    if i < ls.len() {
        assert(!(is_entry(ls[i]) && line_selected(ls[i], target, ext)));
        lemma_nothing_taken(ls, target, ext, i + 1);
    }
}

proof fn lemma_nothing_taken_keeps(ls: Seq<Seq<char>>, target: Seq<char>, ext: Option<Seq<char>>, i: int)
    requires
        0 <= i <= ls.len(),
        none_taken(ls, target, ext, i),
    ensures
        drop_entries(ls, Selection::Text { target, ext }, i).0 == ls.skip(i),
    decreases ls.len() - i,
{
    if i < ls.len() {
        lemma_nothing_taken_keeps(ls, target, ext, i + 1);
        assert(seq![ls[i]] + ls.skip(i + 1) =~= ls.skip(i));
    } else {
        assert(ls.skip(i) =~= seq![]);
    }
}

/// With every file still in place, no declaration goes.
proof fn lemma_no_decl_removed(ls: Seq<Seq<char>>, i: int)
    requires
        0 <= i,
    ensures
        drop_decls(ls, crate::filters::assigned_nodes(ls), None, i).1.len() == 0,
    decreases ls.len() - i,
{
    let bn = crate::filters::assigned_nodes(ls);
    if i < ls.len() {
        if crate::filters::is_decl(ls[i]) && crate::markup::attr_value(ls[i], crate::markup::include_attr()) is Some {
            let n = crate::markup::attr_value(ls[i], crate::markup::include_attr())->0;
            if bn.contains(n) {
                let k = choose|k: int| 0 <= k < bn.len() && bn[k] == n;
                assert(crate::filters::keeps_node(bn, bn, crate::filters::declared(ls), n, None));
            }
        }
        lemma_no_decl_removed(ls, i + 1);
    }
}

/// The lines that a text delete keeps are lines of the text, none of them
/// an entry that the delete takes.
proof fn lemma_kept_lines(ls: Seq<Seq<char>>, target: Seq<char>, ext: Option<Seq<char>>, i: int)
    requires
        0 <= i,
        all_single(ls),
    ensures
        all_single(drop_entries(ls, Selection::Text { target, ext }, i).0),
        none_taken(drop_entries(ls, Selection::Text { target, ext }, i).0, target, ext, 0),
    decreases ls.len() - i,
{
    let sel = Selection::Text { target, ext };
    if i < ls.len() {
        if is_entry(ls[i]) && selected(ls, i, sel) {
            lemma_kept_lines(ls, target, ext, entry_end(ls, i));
        } else {
            lemma_kept_lines(ls, target, ext, i + 1);
            let rest = drop_entries(ls, sel, i + 1).0;
            let out = drop_entries(ls, sel, i).0;
            assert(out == seq![ls[i]] + rest);
            assert(no_newline(ls[i]));
            assert forall|k: int| 0 <= k < out.len() implies no_newline(#[trigger] out[k]) by {
                if k > 0 {
                    assert(out[k] == rest[k - 1]);
                }
            }
            assert forall|j: int| 0 <= j < out.len() implies !(is_entry(#[trigger] out[j])
                && line_selected(out[j], target, ext)) by {
                if j > 0 {
                    assert(out[j] == rest[j - 1]);
                }
            }
        }
    }
}

/// The lines left by removing declarations are lines that were there.
proof fn lemma_decls_subset(
    kept: Seq<Seq<char>>,
    bn: Seq<Seq<char>>,
    tgt: Option<Seq<char>>,
    target: Seq<char>,
    ext: Option<Seq<char>>,
    i: int,
)
    requires
        0 <= i,
        all_single(kept),
        none_taken(kept, target, ext, 0),
    ensures
        all_single(drop_decls(kept, bn, tgt, i).0),
        none_taken(drop_decls(kept, bn, tgt, i).0, target, ext, 0),
    decreases kept.len() - i,
{
    if i < kept.len() {
        let out = drop_decls(kept, bn, tgt, i).0;
        let e = element_end(kept, i, crate::filters::decl_close());
        let rest_drop = drop_decls(kept, bn, tgt, e).0;
        let rest_keep = drop_decls(kept, bn, tgt, i + 1).0;
        lemma_decls_subset(kept, bn, tgt, target, ext, e);
        lemma_decls_subset(kept, bn, tgt, target, ext, i + 1);
        if out != rest_drop {
            assert(out == seq![kept[i]] + rest_keep);
            assert(no_newline(kept[i]));
            assert(!(is_entry(kept[i]) && line_selected(kept[i], target, ext)));
            assert forall|k: int| 0 <= k < out.len() implies no_newline(#[trigger] out[k]) by {
                if k > 0 {
                    assert(out[k] == rest_keep[k - 1]);
                }
            }
            assert forall|j: int| 0 <= j < out.len() implies !(is_entry(#[trigger] out[j])
                && line_selected(out[j], target, ext)) by {
                if j > 0 {
                    assert(out[j] == rest_keep[j - 1]);
                }
            }
        }
    }
}

/// The lines of the text that joined lines make, where the lines hold no newline.
proof fn lemma_resplit(ls: Seq<Seq<char>>, target: Seq<char>, ext: Option<Seq<char>>)
    requires
        all_single(ls),
        none_taken(ls, target, ext, 0),
    ensures
        none_taken(split_lines(join_lines(ls)), target, ext, 0),
{
    if ls.len() >= 1 {
        lemma_split_join(ls);
    } else {
        let e: Seq<char> = seq![];
        assert(join_lines(ls) == e);
        lemma_lines_single(e);
        assert(split_lines(e) == seq![e]);
        assert(!is_entry(e)) by {
            reveal_strlit("<ClCompile Include=\"");
            assert(entry_marker().len() > 0);
        }
    }
}

/// Deleting from the compile-unit document by extension a second time
/// removes nothing.
pub proof fn law_extension_delete_repeats_empty(s: Seq<char>, target: Seq<char>, e: Seq<char>)
    ensures
        deleted(deleted(s, target, Some(e)).0, target, Some(e)).1.len() == 0,
{
    let ls = split_lines(s);
    lemma_split_single(s, 0);
    lemma_kept_lines(ls, target, Some(e), 0);
    let kept = drop_entries(ls, Selection::Text { target, ext: Some(e) }, 0).0;
    lemma_resplit(kept, target, Some(e));
    lemma_nothing_taken(split_lines(join_lines(kept)), target, Some(e), 0);
}

/// Deleting from the filter document by extension a second time removes
/// no file and no node.
pub proof fn law_filter_extension_delete_repeats_empty(s: Seq<char>, target: Seq<char>, e: Seq<char>)
    ensures
        filter_deleted(filter_deleted(s, target, Some(e)).0, target, Some(e)).1.len() == 0,
        filter_deleted(filter_deleted(s, target, Some(e)).0, target, Some(e)).2.len() == 0,
{
    let ext = Some(e);
    let ls = split_lines(s);
    lemma_split_single(s, 0);
    assert(node_target(target, ext) is None);
    assert(delete_selection(target, ext) == Selection::Text { target, ext });
    lemma_kept_lines(ls, target, ext, 0);
    let kept = drop_entries(ls, Selection::Text { target, ext }, 0).0;
    let bn = crate::filters::assigned_nodes(ls);
    lemma_decls_subset(kept, bn, None, target, ext, 0);
    let left = drop_decls(kept, bn, None, 0).0;
    lemma_resplit(left, target, ext);
    let again = split_lines(join_lines(left));
    lemma_nothing_taken(again, target, ext, 0);
    lemma_nothing_taken_keeps(again, target, ext, 0);
    assert(again.skip(0) =~= again);
    lemma_no_decl_removed(again, 0);
}


/// Saving a loaded document without a change writes the same bytes: the
/// editing layer rebuilds the text exactly from its lines.
pub proof fn law_text_round_trip(s: Seq<char>)
    ensures
        join_lines(split_lines(s)) == s,
{
    lemma_join_split(s);
}

/// A delete that takes no entry leaves the text byte for byte and reports nothing.
pub proof fn law_unmatched_delete_keeps_text(s: Seq<char>, target: Seq<char>, ext: Option<Seq<char>>)
    requires
        none_taken(split_lines(s), target, ext, 0),
    ensures
        deleted(s, target, ext).0 == s,
        deleted(s, target, ext).1.len() == 0,
{
    let ls = split_lines(s);
    lemma_nothing_taken(ls, target, ext, 0);
    lemma_nothing_taken_keeps(ls, target, ext, 0);
    assert(ls.skip(0) =~= ls);
    lemma_join_split(s);
}

/// The preview of a delete reports what the commit removes: both report
/// `deleted(..).1` (compile-unit document) and `filter_deleted(..).1`, `.2`
/// (filter document) of the same text, and the preview leaves the text as it is.
pub proof fn law_preview_is_commit(s: Seq<char>, target: Seq<char>, ext: Option<Seq<char>>)
    ensures
        deleted(s, target, ext).1 == drop_entries(
            split_lines(s),
            Selection::Text { target, ext },
            0,
        ).1,
        filter_deleted(s, target, ext).1 == drop_entries(
            split_lines(s),
            delete_selection(target, ext),
            0,
        ).1,
{
}

/// Renaming onto a node that is declared already changes nothing, says so,
/// and names the files that a merge would move.
pub proof fn law_rename_onto_existing(s: Seq<char>, from: Seq<char>, to: Seq<char>)
    requires
        declared(split_lines(s)).contains(from),
        declared(split_lines(s)).contains(to),
    ensures
        rename_outcome(s, from, to) == Some(
            (s, true, files_of(assignments(split_lines(s)), from)),
        ),
{
}

/// Node `n` (at depth `d`) or a node below it has a file.
pub open spec fn files_below(t: Shape, n: Seq<char>, fuel: nat) -> bool
    decreases fuel, 0nat,
{
    if fuel == 0 {
        false
    } else {
        paths_under(t.files, Some(n)).len() > 0 || files_below_among(
            t,
            children(t.nodes, Some(n)),
            (fuel - 1) as nat,
        )
    }
}

pub open spec fn files_below_among(t: Shape, cs: Seq<Seq<char>>, fuel: nat) -> bool
    decreases fuel, cs.len() + 1,
{
    if cs.len() == 0 {
        false
    } else {
        files_below_among(t, cs.drop_last(), fuel) || files_below(t, cs.last(), fuel)
    }
}

proof fn lemma_visible_has_files(t: Shape, n: Seq<char>, d: int, fuel: nat)
    requires
        t.files_only,
    ensures
        visible(t, n, d, fuel) ==> files_below(t, n, fuel),
    decreases fuel, 0nat,
{
    if fuel > 0 {
        let cs = children(t.nodes, Some(n));
        lemma_among_has_files(t, cs, d + 1, (fuel - 1) as nat);
        if visible(t, n, d, fuel) && crate::structure::shown_files(t, n, d).len() > 0 {
            crate::order::lemma_sorted_len(paths_under(t.files, Some(n)));
        }
    }
}

proof fn lemma_among_has_files(t: Shape, cs: Seq<Seq<char>>, d: int, fuel: nat)
    requires
        t.files_only,
    ensures
        visible_among(t, cs, d, fuel).len() > 0 ==> files_below_among(t, cs, fuel),
    decreases fuel, cs.len() + 1,
{
    if cs.len() > 0 {
        lemma_among_has_files(t, cs.drop_last(), d, fuel);
        lemma_visible_has_files(t, cs.last(), d, fuel);
    }
}

/// A folder with no file at or below it is not drawn when empty folders
/// are left out; when they are not left out it is drawn wherever its depth
/// is allowed.
pub proof fn law_files_only_elides_empty(t: Shape, n: Seq<char>, d: int, fuel: nat)
    requires
        fuel > 0,
        !files_below(t, n, fuel),
    ensures
        t.files_only ==> !visible(t, n, d, fuel),
        !t.files_only ==> (visible(t, n, d, fuel) <==> folder_shown(t.level, d)),
{
    if t.files_only {
        lemma_visible_has_files(t, n, d, fuel);
    }
}


/// No line from `i` on declares node `n`.
pub open spec fn undeclared_in(ls: Seq<Seq<char>>, n: Seq<char>) -> bool {
    forall|j: int| 0 <= j < ls.len() ==> !(is_decl(#[trigger] ls[j]) && attr_value(ls[j], include_attr()) == Some(n))
}

proof fn lemma_undeclared(ls: Seq<Seq<char>>, n: Seq<char>, i: int)
    requires
        0 <= i,
        undeclared_in(ls, n),
    ensures
        !declared_from(ls, i).contains(n),
    decreases ls.len() - i,
{
    if i < ls.len() {
        lemma_undeclared(ls, n, i + 1);
        let rest = declared_from(ls, i + 1);
        if is_decl(ls[i]) {
            match attr_value(ls[i], include_attr()) {
                Some(v) => {
                    assert(v != n);
                    assert(declared_from(ls, i) == seq![v] + rest);
                    if (seq![v] + rest).contains(n) {
                        let k = choose|k: int| 0 <= k < (seq![v] + rest).len() && (seq![v] + rest)[k] == n;
                        assert(k > 0);
                        assert(rest[k - 1] == n);
                    }
                },
                None => {
                    assert(declared_from(ls, i) =~= rest);
                },
            }
        }
    }
}

/// The lines after any entry removal are lines that were there.
proof fn lemma_kept_single(ls: Seq<Seq<char>>, sel: Selection, i: int)
    requires
        0 <= i,
        all_single(ls),
    ensures
        all_single(drop_entries(ls, sel, i).0),
    decreases ls.len() - i,
{
    if i < ls.len() {
        if is_entry(ls[i]) && selected(ls, i, sel) {
            lemma_kept_single(ls, sel, entry_end(ls, i));
        } else {
            lemma_kept_single(ls, sel, i + 1);
            let rest = drop_entries(ls, sel, i + 1).0;
            let out = drop_entries(ls, sel, i).0;
            assert(no_newline(ls[i]));
            assert forall|k: int| 0 <= k < out.len() implies no_newline(#[trigger] out[k]) by {
                if k > 0 {
                    assert(out[k] == rest[k - 1]);
                }
            }
        }
    }
}

/// Removing the target's declarations leaves none of them.
proof fn lemma_target_decls_gone(kept: Seq<Seq<char>>, bn: Seq<Seq<char>>, n: Seq<char>, i: int)
    requires
        0 <= i,
        all_single(kept),
    ensures
        all_single(drop_decls(kept, bn, Some(n), i).0),
        undeclared_in(drop_decls(kept, bn, Some(n), i).0, n),
    decreases kept.len() - i,
{
    if i < kept.len() {
        let out = drop_decls(kept, bn, Some(n), i).0;
        let e = element_end(kept, i, decl_close());
        let rest_keep = drop_decls(kept, bn, Some(n), i + 1).0;
        lemma_target_decls_gone(kept, bn, n, e);
        lemma_target_decls_gone(kept, bn, n, i + 1);
        if out != drop_decls(kept, bn, Some(n), e).0 {
            assert(out == seq![kept[i]] + rest_keep);
            assert(no_newline(kept[i]));
            assert forall|k: int| 0 <= k < out.len() implies no_newline(#[trigger] out[k]) by {
                if k > 0 {
                    assert(out[k] == rest_keep[k - 1]);
                }
            }
            assert forall|j: int| 0 <= j < out.len() implies !(is_decl(#[trigger] out[j])
                && attr_value(out[j], include_attr()) == Some(n)) by {
                if j > 0 {
                    assert(out[j] == rest_keep[j - 1]);
                }
            }
        }
    }
}

/// Lines holding no newline, and no declaration of `n`, joined and split again.
proof fn lemma_resplit_undeclared(ls: Seq<Seq<char>>, n: Seq<char>)
    requires
        all_single(ls),
        undeclared_in(ls, n),
    ensures
        !declared(split_lines(join_lines(ls))).contains(n),
{
    if ls.len() >= 1 {
        lemma_split_join(ls);
        lemma_undeclared(ls, n, 0);
    } else {
        let e: Seq<char> = seq![];
        lemma_lines_single(e);
        assert(split_lines(join_lines(ls)) == seq![e]);
        assert(!is_decl(e)) by {
            reveal_strlit("<Filter Include=\"");
            assert(crate::filters::decl_marker().len() > 0);
        }
        lemma_undeclared(seq![e], n, 0);
    }
}

/// Deleting a node by its name removes its declaration: the text left
/// declares it no more.
pub proof fn law_node_delete_removes_declaration(s: Seq<char>, n: Seq<char>)
    requires
        node_target(n, None) == Some(n),
    ensures
        !declared(split_lines(filter_deleted(s, n, None).0)).contains(n),
{
    let ls = split_lines(s);
    lemma_split_single(s, 0);
    let sel = delete_selection(n, None);
    lemma_kept_single(ls, sel, 0);
    let kept = drop_entries(ls, sel, 0).0;
    let bn = crate::filters::assigned_nodes(ls);
    lemma_target_decls_gone(kept, bn, n, 0);
    lemma_resplit_undeclared(drop_decls(kept, bn, Some(n), 0).0, n);
}

proof fn lemma_replace_single(s: Seq<char>, p: Seq<char>, r: Seq<char>, from: int)
    requires
        0 <= from <= s.len(),
        no_newline(s),
        no_newline(r),
    ensures
        no_newline(replace_from(s, p, r, from)),
    decreases s.len() - from,
{
    let out = replace_from(s, p, r, from);
    if p.len() == 0 || from < 0 || from > s.len() {
        if out.contains('\n') {
            let j = choose|j: int| 0 <= j < out.len() && out[j] == '\n';
            assert(out[j] == s[from + j]);
        }
    } else {
        match find_from(s, p, from) {
            Some(i) => if from <= i && i + p.len() <= s.len() {
                lemma_replace_single(s, p, r, i + p.len());
                let rest = replace_from(s, p, r, i + p.len());
                let a = s.subrange(from, i);
                assert(out == a + r + rest);
                if out.contains('\n') {
                    let j = choose|j: int| 0 <= j < out.len() && out[j] == '\n';
                    if j < a.len() {
                        assert(s[from + j] == '\n');
                    } else if j < a.len() + r.len() {
                        assert(r[j - a.len()] == '\n');
                    } else {
                        assert(rest[j - a.len() - r.len()] == '\n');
                    }
                }
            } else {
                if out.contains('\n') {
                    let j = choose|j: int| 0 <= j < out.len() && out[j] == '\n';
                    assert(out[j] == s[from + j]);
                }
            },
            None => {
                if out.contains('\n') {
                    let j = choose|j: int| 0 <= j < out.len() && out[j] == '\n';
                    assert(out[j] == s[from + j]);
                }
            },
        }
    }
}

proof fn lemma_merge_single(ls: Seq<Seq<char>>, from: Seq<char>, to: Seq<char>, i: int)
    requires
        0 <= i,
        all_single(ls),
        no_newline(to),
    ensures
        all_single(merge_from(ls, from, to, i).0),
    decreases ls.len() - i,
{
    if i < ls.len() {
        let out = merge_from(ls, from, to, i).0;
        if is_entry(ls[i]) && crate::entries::entry_assignment(ls, i) == Some(from) {
            let e = entry_end(ls, i);
            let k = crate::entries::assignment_index(ls, i + 1, e);
            crate::entries::lemma_assignment_index(ls, i + 1, e);
            lemma_merge_single(ls, from, to, e);
            let bt = between_tags(to);
            assert(no_newline(bt)) by {
                reveal_strlit(">");
                reveal_strlit("<");
                if bt.contains('\n') {
                    let j = choose|j: int| 0 <= j < bt.len() && bt[j] == '\n';
                    if j > 0 && j < bt.len() - 1 {
                        assert(to[j - 1] == '\n');
                    }
                }
            }
            let changed = replace_all(ls[k], between_tags(from), bt);
            assert(no_newline(ls[k]));
            lemma_replace_single(ls[k], between_tags(from), bt, 0);
            let a = ls.subrange(i, k);
            let b = ls.subrange(k + 1, e);
            let rest = merge_from(ls, from, to, e).0;
            assert(out == a + seq![changed] + b + rest);
            assert forall|q: int| 0 <= q < out.len() implies no_newline(#[trigger] out[q]) by {
                if q < a.len() {
                    assert(out[q] == ls[i + q]);
                } else if q == a.len() {
                } else if q < a.len() + 1 + b.len() {
                    assert(out[q] == ls[k + 1 + (q - a.len() - 1)]);
                } else {
                    assert(out[q] == rest[q - a.len() - 1 - b.len()]);
                }
            }
        } else {
            lemma_merge_single(ls, from, to, i + 1);
            let rest = merge_from(ls, from, to, i + 1).0;
            assert(no_newline(ls[i]));
            assert forall|q: int| 0 <= q < out.len() implies no_newline(#[trigger] out[q]) by {
                if q > 0 {
                    assert(out[q] == rest[q - 1]);
                }
            }
        }
    }
}

proof fn lemma_named_gone(ls: Seq<Seq<char>>, n: Seq<char>, i: int)
    requires
        0 <= i,
        all_single(ls),
    ensures
        all_single(drop_named(ls, n, i)),
        undeclared_in(drop_named(ls, n, i), n),
    decreases ls.len() - i,
{
    if i < ls.len() {
        if is_decl(ls[i]) && attr_value(ls[i], include_attr()) == Some(n) {
            lemma_named_gone(ls, n, element_end(ls, i, decl_close()));
        } else {
            lemma_named_gone(ls, n, i + 1);
            let rest = drop_named(ls, n, i + 1);
            let out = drop_named(ls, n, i);
            assert(no_newline(ls[i]));
            assert forall|k: int| 0 <= k < out.len() implies no_newline(#[trigger] out[k]) by {
                if k > 0 {
                    assert(out[k] == rest[k - 1]);
                }
            }
            assert forall|j: int| 0 <= j < out.len() implies !(is_decl(#[trigger] out[j])
                && attr_value(out[j], include_attr()) == Some(n)) by {
                if j > 0 {
                    assert(out[j] == rest[j - 1]);
                }
            }
        }
    }
}

/// After merging `from` into a different node `to` (a name without a line
/// break), the text declares `from` no more.
pub proof fn law_merge_removes_source(s: Seq<char>, from: Seq<char>, to: Seq<char>)
    requires
        from != to,
        no_newline(to),
    ensures
        !declared(split_lines(merged(s, from, to).0)).contains(from),
{
    let ls = split_lines(s);
    lemma_split_single(s, 0);
    lemma_merge_single(ls, from, to, 0);
    let m = merge_from(ls, from, to, 0).0;
    lemma_named_gone(m, from, 0);
    lemma_resplit_undeclared(drop_named(m, from, 0), from);
}


/// `s` starts with exactly `w` whitespace characters followed by another one.
pub open spec fn leading_ws_is(s: Seq<char>, w: int) -> bool {
    &&& 0 <= w < s.len()
    &&& forall|j: int| 0 <= j < w ==> crate::text::is_ws(s[j])
    &&& !crate::text::is_ws(s[w])
}

proof fn lemma_leading_ws_value(s: Seq<char>, w: int)
    requires
        leading_ws_is(s, w),
    ensures
        crate::text::leading_ws(s) == w,
    decreases w,
{
    if w > 0 {
        assert(crate::text::is_ws(s[0]));
        let t = s.skip(1);
        assert(leading_ws_is(t, w - 1)) by {
            assert forall|j: int| 0 <= j < w - 1 implies crate::text::is_ws(t[j]) by {
                assert(t[j] == s[j + 1]);
            }
            assert(t[w - 1] == s[w]);
        }
        lemma_leading_ws_value(t, w - 1);
    }
}

proof fn lemma_leading_of_opening(l: Seq<char>, marker: Seq<char>)
    requires
        crate::text::starts_with(crate::text::trim_start(l), marker),
        marker.len() > 0,
        !crate::text::is_ws(marker[0]),
    ensures
        leading_ws_is(l, crate::text::leading_ws(l) as int),
        l.subrange(crate::text::leading_ws(l) as int, (crate::text::leading_ws(l) + marker.len()) as int) == marker,
{
    let w = crate::text::leading_ws(l) as int;
    lemma_ws_count(l);
    let t = crate::text::trim_start(l);
    assert(t.subrange(0, marker.len() as int) == marker);
    assert(l[w] == t[0]);
    assert(t[0] == marker[0]);
    assert(l.subrange(w, w + marker.len()) =~= t.subrange(0, marker.len() as int));
}

proof fn lemma_ws_count(l: Seq<char>)
    ensures
        crate::text::leading_ws(l) <= l.len(),
        forall|j: int| 0 <= j < crate::text::leading_ws(l) ==> crate::text::is_ws(l[j]),
        crate::text::leading_ws(l) < l.len() ==> !crate::text::is_ws(l[crate::text::leading_ws(l) as int]),
    decreases l.len(),
{
    if l.len() > 0 && crate::text::is_ws(l[0]) {
        lemma_ws_count(l.skip(1));
        assert forall|j: int| 0 <= j < crate::text::leading_ws(l) implies crate::text::is_ws(l[j]) by {
            if j > 0 {
                assert(l[j] == l.skip(1)[j - 1]);
            }
        }
        if crate::text::leading_ws(l) < l.len() {
            assert(l[crate::text::leading_ws(l) as int] == l.skip(1)[crate::text::leading_ws(l) - 1]);
        }
    }
}

proof fn lemma_attr_literal()
    ensures
        include_attr() =~= seq!['I', 'n', 'c', 'l', 'u', 'd', 'e', '=', '"'],
        crate::markup::quote() =~= seq!['"'],
        "\""@ =~= seq!['"'],
{
    reveal_strlit("Include=\"");
    reveal_strlit("\"");
}

/// In a declaration of `from`, the text `Include="from"` first occurs where the attribute does.
proof fn lemma_decl_first_match(l: Seq<char>, from: Seq<char>, a: int)
    requires
        find_from(l, include_attr(), 0) == Some(a),
        attr_value(l, include_attr()) == Some(from),
    ensures
        find_from(l, include_eq(from), 0) == Some(a),
{
    lemma_attr_literal();
    let i_attr = include_attr();
    let q = crate::markup::quote();
    lemma_find_from(l, i_attr, 0);
    let b = find_from(l, q, a + 9)->0;
    lemma_find_from(l, q, a + 9);
    let x = include_eq(from);
    assert(x =~= i_attr + from + q);
    assert(l.subrange(a, a + x.len()) =~= l.subrange(a, a + 9) + l.subrange(a + 9, b) + l.subrange(
        b,
        b + 1,
    ));
    assert(matches_at(l, x, a));
    assert forall|j: int| 0 <= j < a implies !matches_at(l, x, j) by {
        if matches_at(l, x, j) {
            assert(l.subrange(j, j + 9) =~= l.subrange(j, j + x.len()).subrange(0, 9));
            assert(x.subrange(0, 9) =~= i_attr);
            assert(matches_at(l, i_attr, j));
        }
    }
    lemma_find_is(l, x, 0, a);
}

proof fn lemma_no_attr_before(l: Seq<char>, n: Seq<char>, a: int, j: int)
    requires
        0 <= j < a <= l.len(),
        a < n.len(),
        !matches_at(l, include_attr(), j),
        n.subrange(0, a) == l.subrange(0, a),
        n[a] == 'I',
    ensures
        !matches_at(n, include_attr(), j),
{
    lemma_attr_literal();
    let i_attr = include_attr();
    if matches_at(n, i_attr, j) {
        if j + 9 <= a {
            assert forall|k: int| j <= k < j + 9 implies n[k] == l[k] by {
                assert(0 <= k < a);
                assert(n.subrange(0, a)[k] == n[k]);
                assert(l.subrange(0, a)[k] == l[k]);
                assert(n.subrange(0, a)[k] == l.subrange(0, a)[k]);
            }
            assert(n.subrange(j, j + 9) =~= l.subrange(j, j + 9));
        } else {
            assert(n.subrange(j, j + 9)[a - j] == n[a]);
        }
    }
}

proof fn lemma_attr_first_in_rewritten(l: Seq<char>, n: Seq<char>, to: Seq<char>, rest: Seq<char>, a: int)
    requires
        0 <= a <= l.len(),
        forall|j: int| 0 <= j < a ==> !matches_at(l, include_attr(), j),
        n == l.subrange(0, a) + include_eq(to) + rest,
    ensures
        find_from(n, include_attr(), 0) == Some(a),
{
    lemma_attr_literal();
    let i_attr = include_attr();
    let y = include_eq(to);
    assert(y.subrange(0, 9) =~= i_attr);
    assert(n.subrange(a, a + 9) =~= y.subrange(0, 9));
    assert(matches_at(n, i_attr, a));
    assert(n.subrange(0, a) =~= l.subrange(0, a));
    assert(n[a] == 'I');
    assert forall|j: int| 0 <= j < a implies !matches_at(n, i_attr, j) by {
        lemma_no_attr_before(l, n, a, j);
    }
    lemma_find_is(n, i_attr, 0, a);
}

proof fn lemma_quote_in_rewritten(n: Seq<char>, to: Seq<char>, a: int)
    requires
        0 <= a,
        a + 10 + to.len() <= n.len(),
        n.subrange(a, a + 10 + to.len()) == include_eq(to),
        !to.contains('"'),
    ensures
        find_from(n, crate::markup::quote(), a + 9) == Some(a + 9 + to.len()),
        n.subrange(a + 9, a + 9 + to.len()) == to,
{
    lemma_attr_literal();
    let q = crate::markup::quote();
    let y = include_eq(to);
    let e = a + 9 + to.len();
    assert(n[e] == y[(9 + to.len()) as int]);
    assert(n.subrange(e, e + 1) =~= q);
    assert forall|j: int| a + 9 <= j < e implies !matches_at(n, q, j) by {
        if matches_at(n, q, j) {
            assert(n.subrange(j, j + 1)[0] == n[j]);
            assert(n[j] == y[j - a]);
            assert(y[j - a] == to[j - a - 9]);
        }
    }
    lemma_find_is(n, q, a + 9, e);
    assert forall|k: int| 0 <= k < to.len() implies n[a + 9 + k] == to[k] by {
        assert(n[a + 9 + k] == y[9 + k]);
    }
    assert(n.subrange(a + 9, e) =~= to);
}

/// Text with `Include="to"` put at `a`, where no attribute opened before, has value `to`.
proof fn lemma_attr_of_rewritten(l: Seq<char>, n: Seq<char>, to: Seq<char>, rest: Seq<char>, a: int)
    requires
        0 <= a <= l.len(),
        forall|j: int| 0 <= j < a ==> !matches_at(l, include_attr(), j),
        n == l.subrange(0, a) + include_eq(to) + rest,
        !to.contains('"'),
    ensures
        attr_value(n, include_attr()) == Some(to),
{
    lemma_attr_literal();
    lemma_attr_first_in_rewritten(l, n, to, rest, a);
    let y = include_eq(to);
    assert(y.len() == 10 + to.len());
    assert(n.subrange(a, a + 10 + to.len()) =~= y);
    lemma_quote_in_rewritten(n, to, a);
}

/// A rewritten declaration of `from` declares `to`.
proof fn lemma_renamed_decl(l: Seq<char>, from: Seq<char>, to: Seq<char>)
    requires
        is_decl(l),
        attr_value(l, include_attr()) == Some(from),
        !to.contains('"'),
    ensures
        attr_value(renamed_line(l, from, to), include_attr()) == Some(to),
{
    let i_attr = include_attr();
    lemma_find_from(l, i_attr, 0);
    let a = find_from(l, i_attr, 0)->0;
    lemma_decl_first_match(l, from, a);
    let x = include_eq(from);
    let y = include_eq(to);
    lemma_find_from(l, x, 0);
    lemma_attr_literal();
    assert(x.len() > 0);
    assert(matches_at(l, x, a));
    let rest = replace_from(l, x, y, a + x.len());
    let n = renamed_line(l, from, to);
    assert(n == replace_from(l, x, y, 0));
    assert(n == l.subrange(0, a) + y + rest);
    lemma_attr_of_rewritten(l, n, to, rest, a);
}

proof fn lemma_no_decl_at(m: Seq<char>, w: int)
    requires
        leading_ws_is(m, w),
        w + 8 <= m.len(),
        m[w + 7] == '>',
    ensures
        !is_decl(m),
{
    lemma_leading_ws_value(m, w);
    if is_decl(m) {
        reveal_strlit("<Filter Include=\"");
        let mk = crate::filters::decl_marker();
        assert(mk =~= seq!['<', 'F', 'i', 'l', 't', 'e', 'r', ' ', 'I', 'n', 'c', 'l', 'u', 'd', 'e', '=', '"']);
        let t = crate::text::trim_start(m);
        assert(t.subrange(0, mk.len() as int)[7] == mk[7]);
        assert(t[7] == m[w + 7]);
    }
}

/// A rewritten assignment line is no declaration.
proof fn lemma_renamed_assignment(l: Seq<char>, from: Seq<char>, to: Seq<char>)
    requires
        !(is_decl(l) && attr_value(l, include_attr()) == Some(from)),
        crate::entries::assignment_of_line(l) == Some(from),
    ensures
        !is_decl(renamed_line(l, from, to)),
{
    reveal_strlit("<Filter>");
    reveal_strlit(">");
    reveal_strlit("<");
    let open = crate::entries::assign_open();
    assert(open =~= seq!['<', 'F', 'i', 'l', 't', 'e', 'r', '>']);
    lemma_leading_of_opening(l, open);
    let w = crate::text::leading_ws(l) as int;
    assert(l[w + 7] == '>') by {
        assert(l.subrange(w, w + 8)[7] == l[w + 7]);
    }
    let n = renamed_line(l, from, to);
    let x = between_tags(from);
    let y = between_tags(to);
    assert(x[0] == '>' && y[0] == '>');
    lemma_find_from(l, x, 0);
    if n == l {
        lemma_no_decl_at(l, w);
    } else {
        assert(n == replace_all(l, x, y));
        match find_from(l, x, 0) {
            None => {
                assert(n =~= l);
            },
            Some(i) => {
                assert(l[i] == '>') by {
                    assert(l.subrange(i, i + x.len())[0] == l[i]);
                }
                assert(i >= w + 7) by {
                    if i < w {
                        assert(crate::text::is_ws(l[i]));
                    } else if i < w + 7 {
                        assert(l.subrange(w, w + 8)[i - w] == l[i]);
                        assert(open[i - w] != '>');
                    }
                }
                let rest = replace_from(l, x, y, i + x.len());
                assert(n == l.subrange(0, i) + y + rest);
                assert(n[w + 7] == '>') by {
                    if w + 7 < i {
                        assert(n[w + 7] == l.subrange(0, i)[w + 7]);
                    } else {
                        assert(n[i] == y[0]);
                    }
                }
                assert(leading_ws_is(n, w)) by {
                    assert forall|j: int| 0 <= j <= w implies n[j] == l[j] by {
                        assert(n[j] == l.subrange(0, i)[j]);
                    }
                }
                lemma_no_decl_at(n, w);
            },
        }
    }
}

proof fn lemma_renamed_lines_ok(ls: Seq<Seq<char>>, from: Seq<char>, to: Seq<char>)
    requires
        all_single(ls),
        from != to,
        !to.contains('"'),
        no_newline(to),
    ensures
        all_single(renamed_lines(ls, from, to)),
        undeclared_in(renamed_lines(ls, from, to), from),
{
    let rs = renamed_lines(ls, from, to);
    reveal_strlit("Include=\"");
    reveal_strlit("\"");
    reveal_strlit(">");
    reveal_strlit("<");
    assert forall|k: int| 0 <= k < rs.len() implies no_newline(#[trigger] rs[k]) && !(is_decl(rs[k])
        && attr_value(rs[k], include_attr()) == Some(from)) by {
        let l = ls[k];
        assert(rs[k] == renamed_line(l, from, to));
        assert(no_newline(l));
        if is_decl(l) && attr_value(l, include_attr()) == Some(from) {
            lemma_renamed_decl(l, from, to);
            let y = include_eq(to);
            assert(no_newline(y)) by {
                if y.contains('\n') {
                    let j = choose|j: int| 0 <= j < y.len() && y[j] == '\n';
                    if 9 <= j < 9 + to.len() {
                        assert(to[j - 9] == '\n');
                    }
                }
            }
            lemma_replace_single(l, include_eq(from), y, 0);
        } else if crate::markup::passes(crate::markup::LineTest::Closes, crate::entries::assign_close(), l)
            && crate::entries::assignment_of_line(l) == Some(from) {
            lemma_renamed_assignment(l, from, to);
            let y = between_tags(to);
            assert(no_newline(y)) by {
                if y.contains('\n') {
                    let j = choose|j: int| 0 <= j < y.len() && y[j] == '\n';
                    if 1 <= j < 1 + to.len() {
                        assert(to[j - 1] == '\n');
                    }
                }
            }
            lemma_replace_single(l, between_tags(from), y, 0);
        }
    }
}

/// Renaming `from` to a name not yet declared (one without a quote or a
/// line break) leaves no declaration of `from`.
pub proof fn law_rename_removes_old(s: Seq<char>, from: Seq<char>, to: Seq<char>)
    requires
        !to.contains('"'),
        no_newline(to),
    ensures
        rename_outcome(s, from, to) matches Some((t, false, _)) ==> !declared(split_lines(t)).contains(from),
{
    let ls = split_lines(s);
    if declared(ls).contains(from) && !declared(ls).contains(to) {
        assert(from != to);
        lemma_split_single(s, 0);
        lemma_renamed_lines_ok(ls, from, to);
        lemma_resplit_undeclared(renamed_lines(ls, from, to), from);
    }
}


/// Entries do not nest: no line inside an entry opens another one.
pub open spec fn entries_flat(ls: Seq<Seq<char>>) -> bool {
    forall|i: int, j: int|
        #![trigger is_entry(ls[i]), is_entry(ls[j])]
        0 <= i < ls.len() && is_entry(ls[i]) && i < j < entry_end(ls, i) ==> !is_entry(ls[j])
}

proof fn lemma_paths_skip(ls: Seq<Seq<char>>, i: int, e: int)
    requires
        0 <= i <= e <= ls.len(),
        forall|j: int| i <= j < e ==> !is_entry(#[trigger] ls[j]),
    ensures
        entry_paths(ls, i) == entry_paths(ls, e),
    decreases e - i,
{
    if i < e {
        lemma_paths_skip(ls, i + 1, e);
    }
}

proof fn lemma_paths_shift(ls: Seq<Seq<char>>, k: int, i: int)
    requires
        0 <= k <= ls.len(),
        0 <= i,
    ensures
        entry_paths(ls, k + i) == entry_paths(ls.skip(k), i),
    decreases ls.len() - k - i,
{
    if k + i < ls.len() {
        lemma_paths_shift(ls, k, i + 1);
        assert(ls.skip(k)[i] == ls[k + i]);
    }
}

/// The paths of the kept lines and the reported paths together are the
/// paths of the lines from `i` on.
proof fn lemma_drop_paths(ls: Seq<Seq<char>>, sel: Selection, i: int)
    requires
        0 <= i,
        entries_flat(ls),
    ensures
        (entry_paths(drop_entries(ls, sel, i).0, 0) + drop_entries(ls, sel, i).1).to_multiset()
            == entry_paths(ls, i).to_multiset(),
    decreases ls.len() - i,
{
    if i < ls.len() {
        let h = opt_seq(attr_value(ls[i], include_attr()));
        if is_entry(ls[i]) && selected(ls, i, sel) {
            let e = entry_end(ls, i);
            lemma_drop_paths(ls, sel, e);
            assert forall|j: int| i + 1 <= j < e implies !is_entry(#[trigger] ls[j]) by {
                if is_entry(ls[j]) {
                    assert(is_entry(ls[i]) && is_entry(ls[j]));
                }
            }
            lemma_paths_skip(ls, i + 1, e);
            let d = drop_entries(ls, sel, e);
            let p = entry_paths(d.0, 0);
            lemma_multiset_commutative(p + h, d.1);
            lemma_multiset_commutative(p, h);
            lemma_multiset_commutative(p, d.1);
            lemma_multiset_commutative(h, entry_paths(ls, e));
            assert(p + (h + d.1) =~= p + h + d.1);
            lemma_multiset_commutative(p, h + d.1);
            lemma_multiset_commutative(h, d.1);
        } else {
            lemma_drop_paths(ls, sel, i + 1);
            let d = drop_entries(ls, sel, i + 1);
            let kept = seq![ls[i]] + d.0;
            lemma_paths_shift(kept, 1, 0);
            assert(kept.skip(1) =~= d.0);
            let hd = if is_entry(ls[i]) { h } else { seq![] };
            assert(entry_paths(kept, 0) == hd + entry_paths(d.0, 0));
            let p = entry_paths(d.0, 0);
            assert(hd + p + d.1 =~= hd + (p + d.1));
            lemma_multiset_commutative(hd, p + d.1);
            lemma_multiset_commutative(hd, entry_paths(ls, i + 1));
        }
    }
}

/// What a delete on the compile-unit document reports is exactly what goes:
/// the registered paths left and the reported ones make up, with their
/// repetitions, the paths registered before (for entries that do not nest).
pub proof fn law_delete_reports_removed(s: Seq<char>, target: Seq<char>, ext: Option<Seq<char>>)
    requires
        entries_flat(split_lines(s)),
    ensures
        (entry_paths(split_lines(deleted(s, target, ext).0), 0) + deleted(s, target, ext).1).to_multiset()
            == entry_paths(split_lines(s), 0).to_multiset(),
{
    let ls = split_lines(s);
    let sel = Selection::Text { target, ext };
    lemma_drop_paths(ls, sel, 0);
    lemma_split_single(s, 0);
    lemma_kept_single(ls, sel, 0);
    let kept = drop_entries(ls, sel, 0).0;
    if kept.len() >= 1 {
        lemma_split_join(kept);
    } else {
        let e: Seq<char> = seq![];
        lemma_lines_single(e);
        assert(split_lines(join_lines(kept)) == seq![e]);
        assert(!is_entry(e)) by {
            reveal_strlit("<ClCompile Include=\"");
            assert(entry_marker().len() > 0);
        }
        assert(entry_paths(seq![e], 0) == entry_paths(seq![e], 1));
        assert(entry_paths(kept, 0) == Seq::<Seq<char>>::empty());
    }
}


proof fn lemma_filter_literals()
    ensures
        crate::entries::assign_open() =~= seq!['<', 'F', 'i', 'l', 't', 'e', 'r', '>'],
        crate::entries::assign_close() =~= seq!['<', '/', 'F', 'i', 'l', 't', 'e', 'r', '>'],
        ">"@ =~= seq!['>'],
        "<"@ =~= seq!['<'],
{
    reveal_strlit("<Filter>");
    reveal_strlit("</Filter>");
    reveal_strlit(">");
    reveal_strlit("<");
}

/// The pieces of a one-line assignment `<Filter>from</Filter>`: its
/// indentation `w` and where the closing tag starts, `q`.
proof fn lemma_assignment_shape(l: Seq<char>, from: Seq<char>) -> (r: (int, int))
    requires
        crate::entries::assignment_of_line(l) == Some(from),
    ensures
        leading_ws_is(l, r.0),
        r.1 == r.0 + 8 + from.len(),
        r.1 + 9 <= l.len(),
        l.subrange(r.0, r.0 + 8) == crate::entries::assign_open(),
        l.subrange(r.0 + 8, r.1) == from,
        l.subrange(r.1, r.1 + 9) == crate::entries::assign_close(),
{
    lemma_filter_literals();
    let open = crate::entries::assign_open();
    lemma_leading_of_opening(l, open);
    let w = crate::text::leading_ws(l) as int;
    let close = crate::entries::assign_close();
    lemma_find_from(l, close, w + 8);
    let q = find_from(l, close, w + 8)->0;
    (w, q)
}

/// `>from<` first occurs in an assignment line right after `<Filter`.
proof fn lemma_tags_first(l: Seq<char>, from: Seq<char>, w: int, q: int)
    requires
        leading_ws_is(l, w),
        q == w + 8 + from.len(),
        q + 9 <= l.len(),
        l.subrange(w, w + 8) == crate::entries::assign_open(),
        l.subrange(w + 8, q) == from,
        l.subrange(q, q + 9) == crate::entries::assign_close(),
    ensures
        find_from(l, between_tags(from), 0) == Some(w + 7),
{
    lemma_filter_literals();
    let x = between_tags(from);
    assert(x =~= seq!['>'] + from + seq!['<']);
    assert(l[w + 7] == '>') by {
        assert(l.subrange(w, w + 8)[7] == l[w + 7]);
    }
    assert(l[q] == '<') by {
        assert(l.subrange(q, q + 9)[0] == l[q]);
    }
    assert(l.subrange(w + 7, w + 7 + x.len()) =~= x) by {
        assert forall|k: int| 0 <= k < x.len() implies l[w + 7 + k] == x[k] by {
            if 1 <= k <= from.len() {
                assert(l.subrange(w + 8, q)[k - 1] == l[w + 7 + k]);
            }
        }
    }
    assert forall|j: int| 0 <= j < w + 7 implies !matches_at(l, x, j) by {
        if matches_at(l, x, j) {
            assert(l.subrange(j, j + x.len())[0] == l[j]);
            if j < w {
                assert(crate::text::is_ws(l[j]));
            } else {
                assert(l.subrange(w, w + 8)[j - w] == l[j]);
            }
        }
    }
    lemma_find_is(l, x, 0, w + 7);
}

/// What follows the rewritten name still opens with `/Filter>`.
proof fn lemma_rest_keeps_close(l: Seq<char>, from: Seq<char>, to: Seq<char>, q: int)
    requires
        0 <= q,
        q + 9 <= l.len(),
        l.subrange(q, q + 9) == crate::entries::assign_close(),
    ensures
        replace_from(l, between_tags(from), between_tags(to), q + 1).len() >= 8,
        replace_from(l, between_tags(from), between_tags(to), q + 1).take(8) == crate::entries::assign_close().skip(1),
{
    lemma_filter_literals();
    let x = between_tags(from);
    let y = between_tags(to);
    assert(x =~= seq!['>'] + from + seq!['<']);
    assert(y =~= seq!['>'] + to + seq!['<']);
    let c = crate::entries::assign_close();
    let rest = replace_from(l, x, y, q + 1);
    lemma_find_from(l, x, q + 1);
    assert forall|k: int| q + 1 <= k < q + 8 implies l[k] != '>' by {
        assert(l.subrange(q, q + 9)[k - q] == l[k]);
    }
    assert(l[q + 8] == '>') by {
        assert(l.subrange(q, q + 9)[8] == l[q + 8]);
    }
    match find_from(l, x, q + 1) {
        Some(p) => {
            assert(l.subrange(p, p + x.len())[0] == l[p]);
            assert(p >= q + 8);
            assert(rest == l.subrange(q + 1, p) + y + replace_from(l, x, y, p + x.len()));
            assert forall|k: int| 0 <= k < 8 implies rest[k] == c[k + 1] by {
                if q + 1 + k < p {
                    assert(rest[k] == l.subrange(q + 1, p)[k]);
                    assert(l.subrange(q, q + 9)[k + 1] == l[q + 1 + k]);
                } else {
                    assert(k == 7);
                    assert(rest[k] == y[0]);
                }
            }
        },
        None => {
            assert(rest == l.skip(q + 1));
            assert forall|k: int| 0 <= k < 8 implies rest[k] == c[k + 1] by {
                assert(l.subrange(q, q + 9)[k + 1] == l[q + 1 + k]);
            }
        },
    }
    assert(rest.take(8) =~= c.skip(1));
}

/// A rewritten one-line assignment to `from` assigns to `to`.
proof fn lemma_renamed_assignment_target(l: Seq<char>, from: Seq<char>, to: Seq<char>)
    requires
        !(is_decl(l) && attr_value(l, include_attr()) == Some(from)),
        crate::markup::passes(crate::markup::LineTest::Closes, crate::entries::assign_close(), l),
        crate::entries::assignment_of_line(l) == Some(from),
        !to.contains('<'),
    ensures
        crate::entries::assignment_of_line(renamed_line(l, from, to)) == Some(to),
{
    lemma_filter_literals();
    let (w, q) = lemma_assignment_shape(l, from);
    lemma_tags_first(l, from, w, q);
    let x = between_tags(from);
    let y = between_tags(to);
    assert(x =~= seq!['>'] + from + seq!['<']);
    assert(y =~= seq!['>'] + to + seq!['<']);
    assert(x.len() > 0);
    assert(matches_at(l, x, w + 7)) by {
        lemma_find_from(l, x, 0);
    }
    let rest = replace_from(l, x, y, q + 1);
    assert(w + 7 + x.len() == q + 1);
    let n = renamed_line(l, from, to);
    assert(n == replace_from(l, x, y, 0));
    assert(n == l.subrange(0, w + 7) + y + rest);
    lemma_rest_keeps_close(l, from, to, q);
    let open = crate::entries::assign_open();
    let close = crate::entries::assign_close();
    let e = w + 8 + to.len();
    // The line still opens with `<Filter>` after the same indentation.
    assert forall|k: int| 0 <= k < w + 8 implies n[k] == l[k] by {
        if k < w + 7 {
            assert(n[k] == l.subrange(0, w + 7)[k]);
        } else {
            assert(n[k] == y[0]);
            assert(l.subrange(w, w + 8)[7] == l[k]);
        }
    }
    assert(leading_ws_is(n, w));
    lemma_leading_ws_value(n, w);
    assert(n.subrange(w, w + 8) =~= open) by {
        assert forall|k: int| 0 <= k < 8 implies n[w + k] == open[k] by {
            assert(l.subrange(w, w + 8)[k] == l[w + k]);
        }
    }
    let t = crate::text::trim_start(n);
    assert(t.subrange(0, 8) =~= n.subrange(w, w + 8));
    // The closing tag follows the new name.
    assert(n.subrange(e, e + 9) =~= close) by {
        assert forall|k: int| 0 <= k < 9 implies n[e + k] == close[k] by {
            if k == 0 {
                assert(n[e] == y[(1 + to.len()) as int]);
            } else {
                assert(n[e + k] == rest[k - 1]);
                assert(rest.take(8)[k - 1] == rest[k - 1]);
                assert(close.skip(1)[k - 1] == close[k]);
            }
        }
    }
    assert forall|j: int| w + 8 <= j < e implies !matches_at(n, close, j) by {
        if matches_at(n, close, j) {
            assert(n.subrange(j, j + 9)[0] == n[j]);
            assert(n[j] == y[j - w - 7]);
            assert(to[j - w - 8] == '<');
        }
    }
    lemma_find_is(n, close, w + 8, e);
    assert(n.subrange(w + 8, e) =~= to) by {
        assert forall|k: int| 0 <= k < to.len() implies n[w + 8 + k] == to[k] by {
            assert(n[w + 8 + k] == y[1 + k]);
        }
    }
}

/// Renaming `from` to a name not yet declared (one without `<`, a quote or
/// a line break): every one-line assignment to `from` now assigns to `to`,
/// line for line.
pub proof fn law_rename_moves_assignments(s: Seq<char>, from: Seq<char>, to: Seq<char>)
    requires
        !to.contains('<'),
        !to.contains('"'),
        no_newline(to),
    ensures
        rename_outcome(s, from, to) matches Some((t, false, _)) ==> {
            let before = split_lines(s);
            let after = split_lines(t);
            &&& after.len() == before.len()
            &&& forall|k: int|
                0 <= k < before.len() && crate::markup::passes(
                    crate::markup::LineTest::Closes,
                    crate::entries::assign_close(),
                    before[k],
                ) && crate::entries::assignment_of_line(#[trigger] before[k]) == Some(from)
                    ==> crate::entries::assignment_of_line(after[k]) == Some(to)
        },
{
    let ls = split_lines(s);
    if declared(ls).contains(from) && !declared(ls).contains(to) {
        assert(from != to);
        lemma_split_single(s, 0);
        lemma_renamed_lines_ok(ls, from, to);
        let rs = renamed_lines(ls, from, to);
        if ls.len() >= 1 {
            lemma_split_join(rs);
        } else {
            lemma_lines_from_nonempty_here(s);
        }
        assert forall|k: int|
            0 <= k < ls.len() && crate::markup::passes(
                crate::markup::LineTest::Closes,
                crate::entries::assign_close(),
                ls[k],
            ) && crate::entries::assignment_of_line(#[trigger] ls[k]) == Some(from)
            implies crate::entries::assignment_of_line(split_lines(join_lines(rs))[k]) == Some(to) by {
            lemma_no_decl_for_assignment(ls[k], from);
            lemma_renamed_assignment_target(ls[k], from, to);
        }
    }
}

proof fn lemma_lines_from_nonempty_here(s: Seq<char>)
    ensures
        split_lines(s).len() >= 1,
{
    crate::text::lemma_lines_from_nonempty(s, 0);
}

/// A one-line assignment is no declaration.
proof fn lemma_no_decl_for_assignment(l: Seq<char>, from: Seq<char>)
    requires
        crate::entries::assignment_of_line(l) == Some(from),
    ensures
        !is_decl(l),
{
    lemma_filter_literals();
    let (w, q) = lemma_assignment_shape(l, from);
    assert(l.subrange(w, w + 8)[7] == l[w + 7]);
    lemma_no_decl_at(l, w);
}

} // verus!

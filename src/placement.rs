//! Where added lines go: at the end of the block that already holds lines
//! of their kind, or in a new block before the document's closing tag.
use vstd::prelude::*;
use crate::markup::{
    first_line, first_line_exec, last_line, last_line_exec, LineTest,
};
use crate::text::{chars_of, lines_view, push_line};

verus! {

pub open spec fn group_open() -> Seq<char> {
    "<ItemGroup>"@
}

pub open spec fn group_close() -> Seq<char> {
    "</ItemGroup>"@
}

pub open spec fn root_close() -> Seq<char> {
    "</Project>"@
}

/// The line that closes the block holding the first line that contains
/// `marker`: the block opens at the last `<ItemGroup>` line at or before
/// it, and closes at the first `</ItemGroup>` line from there.
pub open spec fn group_close_line(ls: Seq<Seq<char>>, marker: Seq<char>) -> Option<int> {
    let a = first_line(ls, LineTest::Holds, marker, 0, ls.len() as int);
    if a >= ls.len() {
        None
    } else {
        match last_line(ls, LineTest::Holds, group_open(), a + 1) {
            None => None,
            Some(g) => {
                let c = first_line(ls, LineTest::Holds, group_close(), g, ls.len() as int);
                if 0 <= g && c < ls.len() {
                    Some(c)
                } else {
                    None
                }
            },
        }
    }
}

/// Where a new block goes: before the last line holding `</Project>`, or
/// else at the end (before a final empty line).
pub open spec fn block_line(ls: Seq<Seq<char>>) -> int {
    match last_line(ls, LineTest::Holds, root_close(), ls.len() as int) {
        Some(r) => r,
        None => if ls.len() > 0 && ls.last().len() == 0 {
            ls.len() - 1
        } else {
            ls.len() as int
        },
    }
}

pub open spec fn insert_at(ls: Seq<Seq<char>>, k: int, new: Seq<Seq<char>>) -> Seq<Seq<char>> {
    ls.take(k) + new + ls.skip(k)
}

pub open spec fn wrap_group(new: Seq<Seq<char>>) -> Seq<Seq<char>> {
    seq!["  <ItemGroup>"@] + new + seq!["  </ItemGroup>"@]
}

/// The lines with `new` placed next to the lines that contain `marker`.
pub open spec fn place_lines(ls: Seq<Seq<char>>, marker: Seq<char>, new: Seq<Seq<char>>) -> Seq<
    Seq<char>,
> {
    if new.len() == 0 {
        ls
    } else {
        match group_close_line(ls, marker) {
            Some(c) => insert_at(ls, c, new),
            None => insert_at(ls, block_line(ls), wrap_group(new)),
        }
    }
}

proof fn lemma_last_line(ls: Seq<Seq<char>>, t: LineTest, marker: Seq<char>, end: int)
    ensures
        last_line(ls, t, marker, end) matches Some(g) ==> 0 <= g < end,
    decreases end,
{
    if end > 0 {
        lemma_last_line(ls, t, marker, end - 1);
    }
}

pub fn insert_exec(ls: &Vec<Vec<char>>, k: usize, new: &Vec<Vec<char>>) -> (r: Vec<Vec<char>>)
    requires
        k <= ls.len(),
    ensures
        lines_view(r@) == insert_at(lines_view(ls@), k as int, lines_view(new@)),
{
    let ghost all = lines_view(ls@);
    let ghost nv = lines_view(new@);
    let mut r: Vec<Vec<char>> = Vec::new();
    let mut i: usize = 0;
    while i < k
        invariant
            i <= k <= ls.len(),
            all == lines_view(ls@),
            lines_view(r@) == all.take(i as int),
        decreases k - i,
    {
        push_line(&mut r, &ls[i]);
        assert(lines_view(r@) =~= all.take(i + 1));
        i += 1;
    }
    let mut j: usize = 0;
    while j < new.len()
        invariant
            j <= new.len(),
            nv == lines_view(new@),
            lines_view(r@) == all.take(k as int) + nv.take(j as int),
        decreases new.len() - j,
    {
        push_line(&mut r, &new[j]);
        assert(lines_view(r@) =~= all.take(k as int) + nv.take(j + 1));
        j += 1;
    }
    assert(nv.take(new.len() as int) =~= nv);
    let mut i = k;
    while i < ls.len()
        invariant
            k <= i <= ls.len(),
            all == lines_view(ls@),
            lines_view(r@) == all.take(k as int) + nv + all.subrange(k as int, i as int),
        decreases ls.len() - i,
    {
        push_line(&mut r, &ls[i]);
        assert(lines_view(r@) =~= all.take(k as int) + nv + all.subrange(k as int, i + 1));
        i += 1;
    }
    assert(all.subrange(k as int, ls.len() as int) =~= all.skip(k as int));
    r
}

pub fn place_lines_exec(ls: &Vec<Vec<char>>, marker: &Vec<char>, new: Vec<Vec<char>>) -> (r: Vec<
    Vec<char>,
>)
    ensures
        lines_view(r@) == place_lines(lines_view(ls@), marker@, lines_view(new@)),
{
    let ghost all = lines_view(ls@);
    if new.len() == 0 {
        assert(lines_view(new@).len() == 0);
        return ls.clone();
    }
    let go = chars_of("<ItemGroup>");
    let gc = chars_of("</ItemGroup>");
    let a = first_line_exec(ls, LineTest::Holds, marker, 0, ls.len());
    if a < ls.len() {
        match last_line_exec(ls, LineTest::Holds, &go, a + 1) {
            Some(g) => {
                proof {
                    lemma_last_line(all, LineTest::Holds, group_open(), a + 1);
                }
                let c = first_line_exec(ls, LineTest::Holds, &gc, g, ls.len());
                if c < ls.len() {
                    return insert_exec(ls, c, &new);
                }
            },
            None => {},
        }
    }
    let rc = chars_of("</Project>");
    let at = match last_line_exec(ls, LineTest::Holds, &rc, ls.len()) {
        Some(r) => {
            proof {
                lemma_last_line(all, LineTest::Holds, root_close(), ls.len() as int);
            }
            r
        },
        None => if ls.len() > 0 && ls[ls.len() - 1].len() == 0 {
            ls.len() - 1
        } else {
            ls.len()
        },
    };
    let mut block: Vec<Vec<char>> = Vec::new();
    block.push(chars_of("  <ItemGroup>"));
    let mut j: usize = 0;
    while j < new.len()
        invariant
            j <= new.len(),
            lines_view(block@) == seq!["  <ItemGroup>"@] + lines_view(new@).take(j as int),
        decreases new.len() - j,
    {
        push_line(&mut block, &new[j]);
        assert(lines_view(block@) =~= seq!["  <ItemGroup>"@] + lines_view(new@).take(j + 1));
        j += 1;
    }
    block.push(chars_of("  </ItemGroup>"));
    assert(lines_view(new@).take(new.len() as int) =~= lines_view(new@));
    assert(lines_view(block@) =~= wrap_group(lines_view(new@)));
    insert_exec(ls, at, &block)
}

} // verus!

use crate::doc::{
    can_dedent, can_indent, day_rows, doc_can_move, doc_contains, doc_dedent, doc_find,
    doc_has_parent, doc_indent, doc_insert, doc_move, doc_parent_info, doc_remove, doc_update,
    flat_count, holds, index_in_days, lemma_first_day, lemma_no_first_day, refs_rows, row_in_days,
    takes, total_rows, with_blocks,
};
use crate::maps::StringMap;
use crate::state::{linked_ref_section_count, BlockInfo, LinkedRefsState, LinkedRefsView};
use crate::text::str_eq;
use crate::tree::{
    after_prefix, contains, dedent, dedent_at, dedent_below, find, indent, indent_at, indent_below,
    index_of, insert_pos, moved_on, parent_info, parent_pos, remove, remove_below, row_at, rows,
    sibling_pos, update_first, visible_count, with_child, with_open, with_text, RowView,
};
use crate::types::{days_view, forest_view, Block, BlockView, DailyNote, DailyNoteView};
use vstd::prelude::*;

verus! {

/// `o` moved on by `d` rows.
pub open spec fn shifted(o: Option<nat>, d: nat) -> Option<nat> {
    match o {
        Some(k) => Some(d + k),
        None => None,
    }
}

pub proof fn lemma_skip_step<A>(f: Seq<A>, i: int)
    requires
        0 <= i < f.len(),
    ensures
        f.skip(i).len() == f.len() - i,
        f.skip(i)[0] == f[i],
        f.skip(i).skip(1) == f.skip(i + 1),
        f.skip(0) == f,
{
    assert(f.skip(i).skip(1) =~= f.skip(i + 1));
    assert(f.skip(0) =~= f);
}

pub proof fn lemma_view_index(s: Seq<Block>, i: int)
    requires
        0 <= i < s.len(),
    ensures
        forest_view(s).len() == s.len(),
        forest_view(s)[i] == s[i]@,
        forest_view(s)[i].children == forest_view(s[i].children@),
        forest_view(s)[i].uid == s[i].uid@,
        forest_view(s)[i].open == s[i].open,
{
}

pub proof fn lemma_count_step(f: Seq<BlockView>, i: int)
    requires
        0 <= i < f.len(),
    ensures
        visible_count(f.skip(i)) == rows(f[i]) + visible_count(f.skip(i + 1)),
        rows(f[i]) == 1 + (if f[i].open {
            visible_count(f[i].children)
        } else {
            0
        }),
        rows(f[i]) <= visible_count(f.skip(i)),
        f.skip(0) == f,
{
    lemma_skip_step(f, i);
}

/// Rows that `blocks` occupy.
pub fn count_blocks_recursive(blocks: &Vec<Block>) -> (n: usize)
    requires
        visible_count(forest_view(blocks@)) <= usize::MAX,
    ensures
        n == visible_count(forest_view(blocks@)),
    decreases blocks@,
{
    let ghost f = forest_view(blocks@);
    let mut n: usize = 0;
    let mut i: usize = 0;
    proof {
        assert(f.skip(0) =~= f);
    }
    while i < blocks.len()
        invariant
            i <= blocks.len(),
            f == forest_view(blocks@),
            f.len() == blocks.len(),
            n + visible_count(f.skip(i as int)) == visible_count(f),
            visible_count(f) <= usize::MAX,
        decreases blocks.len() - i,
    {
        proof {
            lemma_count_step(f, i as int);
            lemma_view_index(blocks@, i as int);
        }
        if blocks[i].open {
            let below = count_blocks_recursive(&blocks[i].children);
            n = n + 1 + below;
        } else {
            n = n + 1;
        }
        i += 1;
    }
    n
}

pub proof fn lemma_index_step(f: Seq<BlockView>, uid: Seq<char>, i: int)
    requires
        0 <= i < f.len(),
    ensures
        index_of(f.skip(i), uid) == (if f[i].uid == uid {
            Some(0nat)
        } else {
            let below = if f[i].open {
                index_of(f[i].children, uid)
            } else {
                None
            };
            match below {
                Some(k) => Some(1 + k),
                None => shifted(index_of(f.skip(i + 1), uid), rows(f[i])),
            }
        }),
{
    lemma_skip_step(f, i);
}

/// A block is on a row of `f` exactly when the row lies within `f`.
pub proof fn lemma_index_bound(f: Seq<BlockView>, uid: Seq<char>)
    ensures
        index_of(f, uid) matches Some(k) ==> k < visible_count(f),
    decreases f,
{
    if f.len() > 0 {
        lemma_count_step(f, 0);
        if f[0].uid != uid {
            lemma_index_bound(f[0].children, uid);
            lemma_index_bound(f.skip(1), uid);
        }
    }
}

/// Row of the first visible block of `blocks` that carries `uid`, counted on
/// from `counter`. Where there is none, `counter` has moved past the rows of
/// `blocks`.
pub fn find_index_in_blocks(blocks: &Vec<Block>, uid: &str, counter: &mut usize) -> (r: Option<usize>)
    requires
        *old(counter) + visible_count(forest_view(blocks@)) <= usize::MAX,
    ensures
        r matches Some(idx) ==> index_of(forest_view(blocks@), uid@) == Some(
            (idx - *old(counter)) as nat,
        ) && idx >= *old(counter),
        r is None ==> index_of(forest_view(blocks@), uid@) is None && *final(counter) == *old(
            counter,
        ) + visible_count(forest_view(blocks@)),
    decreases blocks@,
{
    let ghost f = forest_view(blocks@);
    let ghost base = *counter;
    let mut i: usize = 0;
    proof {
        assert(f.skip(0) =~= f);
    }
    while i < blocks.len()
        invariant
            i <= blocks.len(),
            f == forest_view(blocks@),
            f.len() == blocks.len(),
            base == *old(counter),
            base + visible_count(f) <= usize::MAX,
            *counter >= base,
            *counter + visible_count(f.skip(i as int)) == base + visible_count(f),
            index_of(f, uid@) == shifted(index_of(f.skip(i as int), uid@), (*counter - base) as nat),
        decreases blocks.len() - i,
    {
        proof {
            lemma_count_step(f, i as int);
            lemma_index_step(f, uid@, i as int);
            lemma_view_index(blocks@, i as int);
        }
        if str_eq(blocks[i].uid.as_str(), uid) {
            return Some(*counter);
        }
        *counter = *counter + 1;
        if blocks[i].open {
            let below = find_index_in_blocks(&blocks[i].children, uid, counter);
            if below.is_some() {
                return below;
            }
        }
        i += 1;
    }
    None
}

pub proof fn lemma_row_step(f: Seq<BlockView>, parent: Seq<char>, depth: nat, t: nat, i: int)
    requires
        0 <= i < f.len(),
    ensures
        row_at(f.skip(i), parent, depth, t) == (if t == 0 {
            Some(
                RowView {
                    block_uid: f[i].uid,
                    parent_uid: parent,
                    text: f[i].text,
                    order: f[i].order,
                    depth: depth,
                },
            )
        } else if t < rows(f[i]) {
            row_at(f[i].children, f[i].uid, depth + 1, (t - 1) as nat)
        } else {
            row_at(f.skip(i + 1), parent, depth, (t - rows(f[i])) as nat)
        }),
{
    lemma_skip_step(f, i);
}

/// A row of `f` shows a block exactly when it lies within `f`.
pub proof fn lemma_row_bound(f: Seq<BlockView>, parent: Seq<char>, depth: nat, t: nat)
    ensures
        row_at(f, parent, depth, t) is Some <==> t < visible_count(f),
    decreases f,
{
    if f.len() > 0 && t != 0 {
        if t < rows(f[0]) {
            lemma_row_bound(f[0].children, f[0].uid, depth + 1, (t - 1) as nat);
        } else {
            lemma_row_bound(f.skip(1), parent, depth, (t - rows(f[0])) as nat);
        }
    }
}

/// The block on row `target`, where the first row of `blocks` is row
/// `counter`. Where the row is not among those of `blocks`, `counter` has
/// moved past them.
pub fn resolve_in_blocks(
    blocks: &Vec<Block>,
    parent_uid: &str,
    depth: usize,
    target: usize,
    counter: &mut usize,
) -> (r: Option<BlockInfo>)
    requires
        *old(counter) + visible_count(forest_view(blocks@)) <= usize::MAX,
        depth + visible_count(forest_view(blocks@)) <= usize::MAX,
    ensures
        r matches Some(info) ==> target >= *old(counter) && row_at(
            forest_view(blocks@),
            parent_uid@,
            depth as nat,
            (target - *old(counter)) as nat,
        ) == Some(info@),
        r is None ==> *final(counter) == *old(counter) + visible_count(forest_view(blocks@)) && (
        target < *old(counter) || target >= *final(counter)),
    decreases blocks@,
{
    let ghost f = forest_view(blocks@);
    let ghost base = *counter;
    let mut i: usize = 0;
    proof {
        assert(f.skip(0) =~= f);
    }
    while i < blocks.len()
        invariant
            i <= blocks.len(),
            f == forest_view(blocks@),
            f.len() == blocks.len(),
            base == *old(counter),
            base + visible_count(f) <= usize::MAX,
            depth + visible_count(f) <= usize::MAX,
            *counter >= base,
            *counter + visible_count(f.skip(i as int)) == base + visible_count(f),
            target < base || target >= *counter,
            target >= base ==> row_at(f, parent_uid@, depth as nat, (target - base) as nat)
                == row_at(f.skip(i as int), parent_uid@, depth as nat, (target - *counter) as nat),
        decreases blocks.len() - i,
    {
        proof {
            lemma_count_step(f, i as int);
            lemma_view_index(blocks@, i as int);
            if target >= *counter {
                lemma_row_step(f, parent_uid@, depth as nat, (target - *counter) as nat, i as int);
            }
        }
        if *counter == target {
            return Some(
                BlockInfo {
                    block_uid: blocks[i].uid.clone(),
                    parent_uid: parent_uid.to_owned(),
                    text: blocks[i].string.clone(),
                    order: blocks[i].order,
                    depth,
                },
            );
        }
        *counter = *counter + 1;
        if blocks[i].open {
            let ghost before = *counter;
            let below = resolve_in_blocks(
                &blocks[i].children,
                blocks[i].uid.as_str(),
                depth + 1,
                target,
                counter,
            );
            if below.is_some() {
                proof {
                    lemma_row_bound(
                        f[i as int].children,
                        f[i as int].uid,
                        (depth + 1) as nat,
                        (target - before) as nat,
                    );
                }
                return below;
            }
        }
        i += 1;
    }
    None
}

pub proof fn lemma_find_step(f: Seq<BlockView>, uid: Seq<char>, i: int)
    requires
        0 <= i < f.len(),
    ensures
        find(f.skip(i), uid) == (if f[i].uid == uid {
            Some(f[i])
        } else {
            match find(f[i].children, uid) {
                Some(b) => Some(b),
                None => find(f.skip(i + 1), uid),
            }
        }),
{
    lemma_skip_step(f, i);
}

/// A copy of the first block of `blocks` that carries `uid`.
pub fn find_block_recursive(blocks: &Vec<Block>, uid: &str) -> (r: Option<Block>)
    ensures
        r matches Some(b) ==> find(forest_view(blocks@), uid@) == Some(b@),
        r is None ==> find(forest_view(blocks@), uid@) is None,
    decreases blocks@,
{
    let ghost f = forest_view(blocks@);
    let mut i: usize = 0;
    proof {
        assert(f.skip(0) =~= f);
    }
    while i < blocks.len()
        invariant
            i <= blocks.len(),
            f == forest_view(blocks@),
            f.len() == blocks.len(),
            find(f, uid@) == find(f.skip(i as int), uid@),
        decreases blocks.len() - i,
    {
        proof {
            lemma_find_step(f, uid@, i as int);
            lemma_view_index(blocks@, i as int);
        }
        if str_eq(blocks[i].uid.as_str(), uid) {
            return Some(blocks[i].clone());
        }
        let below = find_block_recursive(&blocks[i].children, uid);
        if below.is_some() {
            return below;
        }
        i += 1;
    }
    None
}

pub proof fn lemma_parent_step(f: Seq<BlockView>, parent: Seq<char>, uid: Seq<char>, i: int)
    requires
        0 <= i < f.len(),
    ensures
        parent_info(f.skip(i), parent, uid) == (if f[i].uid == uid {
            Some((parent, f[i].order))
        } else {
            match parent_info(f[i].children, f[i].uid, uid) {
                Some(p) => Some(p),
                None => parent_info(f.skip(i + 1), parent, uid),
            }
        }),
{
    lemma_skip_step(f, i);
}

/// The uid of the parent of the first block of `blocks` that carries `uid`,
/// and that block's order.
pub fn find_parent_info_recursive(blocks: &Vec<Block>, parent_uid: &str, uid: &str) -> (r: Option<
    (String, i64),
>)
    ensures
        r matches Some(p) ==> parent_info(forest_view(blocks@), parent_uid@, uid@) == Some(
            (p.0@, p.1 as int),
        ),
        r is None ==> parent_info(forest_view(blocks@), parent_uid@, uid@) is None,
    decreases blocks@,
{
    let ghost f = forest_view(blocks@);
    let mut i: usize = 0;
    proof {
        assert(f.skip(0) =~= f);
    }
    while i < blocks.len()
        invariant
            i <= blocks.len(),
            f == forest_view(blocks@),
            f.len() == blocks.len(),
            parent_info(f, parent_uid@, uid@) == parent_info(f.skip(i as int), parent_uid@, uid@),
        decreases blocks.len() - i,
    {
        proof {
            lemma_parent_step(f, parent_uid@, uid@, i as int);
            lemma_view_index(blocks@, i as int);
        }
        if str_eq(blocks[i].uid.as_str(), uid) {
            return Some((parent_uid.to_owned(), blocks[i].order));
        }
        let below = find_parent_info_recursive(&blocks[i].children, blocks[i].uid.as_str(), uid);
        if below.is_some() {
            return below;
        }
        i += 1;
    }
    None
}

pub proof fn lemma_update_step(
    f: Seq<BlockView>,
    uid: Seq<char>,
    g: spec_fn(BlockView) -> BlockView,
    i: int,
)
    requires
        0 <= i < f.len(),
    ensures
        f.take(i) + update_first(f.skip(i), uid, g) == (if f[i].uid == uid {
            f.update(i, g(f[i]))
        } else if contains(f[i].children, uid) {
            f.update(i, BlockView { children: update_first(f[i].children, uid, g), ..f[i] })
        } else {
            f.take(i + 1) + update_first(f.skip(i + 1), uid, g)
        }),
        contains(f.skip(i), uid) == (f[i].uid == uid || contains(f[i].children, uid) || contains(
            f.skip(i + 1),
            uid,
        )),
        update_first(f.skip(i), uid, g).len() == f.len() - i,
    decreases f.len() - i,
{
    lemma_skip_step(f, i);
    let s = f.skip(i);
    if f[i].uid == uid {
        assert(f.take(i) + s.update(0, g(f[i])) =~= f.update(i, g(f[i])));
    } else if contains(f[i].children, uid) {
        let b = BlockView { children: update_first(f[i].children, uid, g), ..f[i] };
        assert(f.take(i) + s.update(0, b) =~= f.update(i, b));
    } else {
        if i + 1 < f.len() {
            lemma_update_step(f, uid, g, i + 1);
        }
        assert(f.take(i) + (seq![f[i]] + update_first(f.skip(i + 1), uid, g)) =~= f.take(i + 1)
            + update_first(f.skip(i + 1), uid, g));
    }
}

/// Where no block carries `uid`, nothing is changed.
pub proof fn lemma_update_absent(f: Seq<BlockView>, uid: Seq<char>, g: spec_fn(BlockView) -> BlockView)
    requires
        !contains(f, uid),
    ensures
        update_first(f, uid, g) == f,
    decreases f,
{
    if f.len() > 0 {
        lemma_update_absent(f.skip(1), uid, g);
        assert(seq![f[0]] + f.skip(1) =~= f);
    }
}

/// Gives the first block of `blocks` that carries `uid` the text `new_text`.
/// Returns whether there was one.
pub fn update_block_text(blocks: &mut Vec<Block>, uid: &str, new_text: &str) -> (r: bool)
    ensures
        r == contains(forest_view(old(blocks)@), uid@),
        forest_view(final(blocks)@) == update_first(
            forest_view(old(blocks)@),
            uid@,
            with_text(new_text@),
        ),
    decreases forest_view(old(blocks)@),
{
    let ghost f = forest_view(blocks@);
    let ghost g = with_text(new_text@);
    let mut i: usize = 0;
    proof {
        assert(f.skip(0) =~= f);
        assert(f.take(0) + update_first(f, uid@, g) =~= update_first(f, uid@, g));
    }
    while i < blocks.len()
        invariant
            i <= blocks.len(),
            f == forest_view(old(blocks)@),
            f == forest_view(blocks@),
            f.len() == blocks.len(),
            g == with_text(new_text@),
            contains(f, uid@) == contains(f.skip(i as int), uid@),
            update_first(f, uid@, g) == f.take(i as int) + update_first(f.skip(i as int), uid@, g),
        decreases blocks.len() - i,
    {
        proof {
            lemma_update_step(f, uid@, g, i as int);
            lemma_view_index(blocks@, i as int);
        }
        if str_eq(blocks[i].uid.as_str(), uid) {
            blocks[i].string = new_text.to_owned();
            proof {
                assert(forest_view(blocks@) =~= f.update(i as int, g(f[i as int])));
            }
            return true;
        }
        let ghost before = blocks@;
        if update_block_text(&mut blocks[i].children, uid, new_text) {
            proof {
                assert(forest_view(blocks@) =~= f.update(
                    i as int,
                    BlockView {
                        children: update_first(f[i as int].children, uid@, g),
                        ..f[i as int]
                    },
                ));
            }
            return true;
        }
        proof {
            lemma_update_absent(f[i as int].children, uid@, g);
            assert(forest_view(blocks@) =~= f);
        }
        i += 1;
    }
    proof {
        assert(f.take(f.len() as int) =~= f);
        assert(f.skip(f.len() as int) =~= Seq::<BlockView>::empty());
        assert(f + Seq::<BlockView>::empty() =~= f);
    }
    false
}

/// Opens or closes the first block of `blocks` that carries `uid`. Returns
/// whether there was one.
pub fn set_open_recursive(blocks: &mut Vec<Block>, uid: &str, open: bool) -> (r: bool)
    ensures
        r == contains(forest_view(old(blocks)@), uid@),
        forest_view(final(blocks)@) == update_first(forest_view(old(blocks)@), uid@, with_open(open)),
    decreases forest_view(old(blocks)@),
{
    let ghost f = forest_view(blocks@);
    let ghost g = with_open(open);
    let mut i: usize = 0;
    proof {
        assert(f.skip(0) =~= f);
        assert(f.take(0) + update_first(f, uid@, g) =~= update_first(f, uid@, g));
    }
    while i < blocks.len()
        invariant
            i <= blocks.len(),
            f == forest_view(old(blocks)@),
            f == forest_view(blocks@),
            f.len() == blocks.len(),
            g == with_open(open),
            contains(f, uid@) == contains(f.skip(i as int), uid@),
            update_first(f, uid@, g) == f.take(i as int) + update_first(f.skip(i as int), uid@, g),
        decreases blocks.len() - i,
    {
        proof {
            lemma_update_step(f, uid@, g, i as int);
            lemma_view_index(blocks@, i as int);
        }
        if str_eq(blocks[i].uid.as_str(), uid) {
            blocks[i].open = open;
            proof {
                assert(forest_view(blocks@) =~= f.update(i as int, g(f[i as int])));
            }
            return true;
        }
        if set_open_recursive(&mut blocks[i].children, uid, open) {
            proof {
                assert(forest_view(blocks@) =~= f.update(
                    i as int,
                    BlockView {
                        children: update_first(f[i as int].children, uid@, g),
                        ..f[i as int]
                    },
                ));
            }
            return true;
        }
        proof {
            lemma_update_absent(f[i as int].children, uid@, g);
            assert(forest_view(blocks@) =~= f);
        }
        i += 1;
    }
    proof {
        assert(f.take(f.len() as int) =~= f);
        assert(f.skip(f.len() as int) =~= Seq::<BlockView>::empty());
        assert(f + Seq::<BlockView>::empty() =~= f);
    }
    false
}

pub proof fn lemma_view_insert(s: Seq<Block>, pos: int, b: Block)
    requires
        0 <= pos <= s.len(),
    ensures
        forest_view(s.insert(pos, b)) == forest_view(s).insert(pos, b@),
{
    assert(forest_view(s.insert(pos, b)) =~= forest_view(s).insert(pos, b@));
}

pub proof fn lemma_view_remove(s: Seq<Block>, pos: int)
    requires
        0 <= pos < s.len(),
    ensures
        forest_view(s.remove(pos)) == forest_view(s).remove(pos),
{
    assert(forest_view(s.remove(pos)) =~= forest_view(s).remove(pos));
}

pub proof fn lemma_view_push(s: Seq<Block>, b: Block)
    ensures
        forest_view(s.push(b)) == forest_view(s).push(b@),
{
    assert(forest_view(s.push(b)) =~= forest_view(s).push(b@));
}

/// What [`insert_pos`] says of the place it gives.
pub proof fn lemma_insert_pos(f: Seq<BlockView>, order: int)
    ensures
        0 <= insert_pos(f, order) <= f.len(),
        forall|j: int| 0 <= j < insert_pos(f, order) ==> f[j].order < order,
        insert_pos(f, order) < f.len() ==> f[insert_pos(f, order)].order >= order,
    decreases f.len(),
{
    if f.len() > 0 && f[0].order < order {
        lemma_insert_pos(f.skip(1), order);
        let p = insert_pos(f.skip(1), order);
        assert forall|j: int| 0 <= j < p + 1 implies f[j].order < order by {
            if j > 0 {
                assert(f.skip(1)[j - 1] == f[j]);
            }
        }
    }
}

/// The place among `blocks` of a block of rank `order`.
pub fn insert_position(blocks: &Vec<Block>, order: i64) -> (pos: usize)
    ensures
        pos == insert_pos(forest_view(blocks@), order as int),
        pos <= blocks.len(),
{
    let ghost f = forest_view(blocks@);
    let mut i: usize = 0;
    proof {
        assert(f.skip(0) =~= f);
    }
    while i < blocks.len()
        invariant
            i <= blocks.len(),
            f == forest_view(blocks@),
            f.len() == blocks.len(),
            insert_pos(f, order as int) == i + insert_pos(f.skip(i as int), order as int),
        decreases blocks.len() - i,
    {
        proof {
            lemma_skip_step(f, i as int);
            lemma_view_index(blocks@, i as int);
        }
        if blocks[i].order >= order {
            return i;
        }
        i += 1;
    }
    i
}

/// Puts a copy of `new_block` among the sub-blocks of the first block of
/// `blocks` that carries `parent_uid`, before the first of them whose order is
/// at least `order`. Returns whether such a parent was found.
pub fn insert_block_in_children(
    blocks: &mut Vec<Block>,
    parent_uid: &str,
    order: i64,
    new_block: &Block,
) -> (r: bool)
    ensures
        r == contains(forest_view(old(blocks)@), parent_uid@),
        forest_view(final(blocks)@) == update_first(
            forest_view(old(blocks)@),
            parent_uid@,
            with_child(order as int, new_block@),
        ),
    decreases forest_view(old(blocks)@),
{
    let ghost f = forest_view(blocks@);
    let ghost g = with_child(order as int, new_block@);
    let ghost uid = parent_uid@;
    let mut i: usize = 0;
    proof {
        assert(f.skip(0) =~= f);
        assert(f.take(0) + update_first(f, uid, g) =~= update_first(f, uid, g));
    }
    while i < blocks.len()
        invariant
            i <= blocks.len(),
            f == forest_view(old(blocks)@),
            f == forest_view(blocks@),
            f.len() == blocks.len(),
            g == with_child(order as int, new_block@),
            uid == parent_uid@,
            contains(f, uid) == contains(f.skip(i as int), uid),
            update_first(f, uid, g) == f.take(i as int) + update_first(f.skip(i as int), uid, g),
        decreases blocks.len() - i,
    {
        proof {
            lemma_update_step(f, uid, g, i as int);
            lemma_view_index(blocks@, i as int);
        }
        if str_eq(blocks[i].uid.as_str(), parent_uid) {
            let pos = insert_position(&blocks[i].children, order);
            let ghost kids = blocks[i as int].children@;
            let copy = new_block.clone();
            blocks[i].children.insert(pos, copy);
            proof {
                lemma_view_insert(kids, pos as int, copy);
                assert(forest_view(blocks@) =~= f.update(i as int, g(f[i as int])));
            }
            return true;
        }
        if insert_block_in_children(&mut blocks[i].children, parent_uid, order, new_block) {
            proof {
                assert(forest_view(blocks@) =~= f.update(
                    i as int,
                    BlockView {
                        children: update_first(f[i as int].children, uid, g),
                        ..f[i as int]
                    },
                ));
            }
            return true;
        }
        proof {
            lemma_update_absent(f[i as int].children, uid, g);
            assert(forest_view(blocks@) =~= f);
        }
        i += 1;
    }
    proof {
        assert(f.take(f.len() as int) =~= f);
        assert(f.skip(f.len() as int) =~= Seq::<BlockView>::empty());
        assert(f + Seq::<BlockView>::empty() =~= f);
    }
    false
}

/// What [`sibling_pos`] says of the place it gives.
pub proof fn lemma_sibling_pos(f: Seq<BlockView>, uid: Seq<char>)
    ensures
        sibling_pos(f, uid) matches Some(k) ==> 0 <= k < f.len() && f[k].uid == uid && forall|
            j: int,
        |
            0 <= j < k ==> f[j].uid != uid,
        sibling_pos(f, uid) is None ==> forall|j: int| 0 <= j < f.len() ==> f[j].uid != uid,
    decreases f.len(),
{
    if f.len() > 0 && f[0].uid != uid {
        lemma_sibling_pos(f.skip(1), uid);
        match sibling_pos(f.skip(1), uid) {
            Some(k) => {
                assert forall|j: int| 0 <= j < k + 1 implies f[j].uid != uid by {
                    if j > 0 {
                        assert(f.skip(1)[j - 1] == f[j]);
                    }
                }
            },
            None => {
                assert forall|j: int| 0 <= j < f.len() implies f[j].uid != uid by {
                    if j > 0 {
                        assert(f.skip(1)[j - 1] == f[j]);
                    }
                }
            },
        }
    }
}

/// Position among `blocks` themselves of the first that carries `uid`.
pub fn position_of(blocks: &Vec<Block>, uid: &str) -> (r: Option<usize>)
    ensures
        r matches Some(k) ==> sibling_pos(forest_view(blocks@), uid@) == Some(k as int) && k
            < blocks.len(),
        r is None ==> sibling_pos(forest_view(blocks@), uid@) is None,
{
    let ghost f = forest_view(blocks@);
    let mut i: usize = 0;
    proof {
        assert(f.skip(0) =~= f);
    }
    while i < blocks.len()
        invariant
            i <= blocks.len(),
            f == forest_view(blocks@),
            f.len() == blocks.len(),
            sibling_pos(f, uid@) == moved_on(sibling_pos(f.skip(i as int), uid@), i as int),
        decreases blocks.len() - i,
    {
        proof {
            lemma_skip_step(f, i as int);
            lemma_view_index(blocks@, i as int);
        }
        if str_eq(blocks[i].uid.as_str(), uid) {
            return Some(i);
        }
        i += 1;
    }
    None
}

/// A block among those of `f` themselves is a block of `f`.
pub proof fn lemma_sibling_contains(f: Seq<BlockView>, uid: Seq<char>)
    requires
        sibling_pos(f, uid) is Some,
    ensures
        contains(f, uid),
    decreases f.len(),
{
    if f[0].uid != uid {
        lemma_sibling_contains(f.skip(1), uid);
    }
}

pub proof fn lemma_remove_below_step(f: Seq<BlockView>, uid: Seq<char>, i: int)
    requires
        0 <= i < f.len(),
    ensures
        f.take(i) + remove_below(f.skip(i), uid) == (if contains(f[i].children, uid) {
            f.update(i, BlockView { children: remove(f[i].children, uid), ..f[i] })
        } else {
            f.take(i + 1) + remove_below(f.skip(i + 1), uid)
        }),
{
    lemma_skip_step(f, i);
    let s = f.skip(i);
    if contains(f[i].children, uid) {
        let b = BlockView { children: remove(f[i].children, uid), ..f[i] };
        assert(f.take(i) + s.update(0, b) =~= f.update(i, b));
    } else {
        assert(f.take(i) + (seq![f[i]] + remove_below(f.skip(i + 1), uid)) =~= f.take(i + 1)
            + remove_below(f.skip(i + 1), uid));
    }
}

/// Where no block carries `uid`, nothing is removed.
pub proof fn lemma_remove_absent(f: Seq<BlockView>, uid: Seq<char>)
    requires
        !contains(f, uid),
    ensures
        remove(f, uid) == f,
        remove_below(f, uid) == f,
    decreases f,
{
    if sibling_pos(f, uid) is Some {
        lemma_sibling_contains(f, uid);
    }
    if f.len() > 0 {
        lemma_remove_absent(f.skip(1), uid);
        if sibling_pos(f.skip(1), uid) is Some {
            lemma_sibling_contains(f.skip(1), uid);
        }
        assert(seq![f[0]] + f.skip(1) =~= f);
    }
}

/// Takes the first block that carries `uid` out of `blocks`, with all that is
/// below it. A block among `blocks` themselves goes before any at a greater
/// depth. Returns whether there was one.
pub fn remove_block(blocks: &mut Vec<Block>, uid: &str) -> (r: bool)
    ensures
        r == contains(forest_view(old(blocks)@), uid@),
        forest_view(final(blocks)@) == remove(forest_view(old(blocks)@), uid@),
    decreases forest_view(old(blocks)@),
{
    let ghost f = forest_view(blocks@);
    match position_of(blocks, uid) {
        Some(pos) => {
            let ghost before = blocks@;
            blocks.remove(pos);
            proof {
                lemma_view_remove(before, pos as int);
                lemma_sibling_contains(f, uid@);
            }
            return true;
        },
        None => {},
    }
    let mut i: usize = 0;
    proof {
        assert(f.skip(0) =~= f);
        assert(f.take(0) + remove_below(f, uid@) =~= remove_below(f, uid@));
        lemma_sibling_pos(f, uid@);
    }
    while i < blocks.len()
        invariant
            i <= blocks.len(),
            f == forest_view(old(blocks)@),
            f == forest_view(blocks@),
            f.len() == blocks.len(),
            forall|j: int| 0 <= j < f.len() ==> f[j].uid != uid@,
            remove(f, uid@) == remove_below(f, uid@),
            contains(f, uid@) == contains(f.skip(i as int), uid@),
            remove_below(f, uid@) == f.take(i as int) + remove_below(f.skip(i as int), uid@),
        decreases blocks.len() - i,
    {
        proof {
            lemma_find_step(f, uid@, i as int);
            lemma_remove_below_step(f, uid@, i as int);
            lemma_view_index(blocks@, i as int);
        }
        if remove_block(&mut blocks[i].children, uid) {
            proof {
                assert(forest_view(blocks@) =~= f.update(
                    i as int,
                    BlockView { children: remove(f[i as int].children, uid@), ..f[i as int] },
                ));
            }
            return true;
        }
        proof {
            lemma_remove_absent(f[i as int].children, uid@);
            assert(forest_view(blocks@) =~= f);
        }
        i += 1;
    }
    proof {
        assert(f.take(f.len() as int) =~= f);
        assert(f.skip(f.len() as int) =~= Seq::<BlockView>::empty());
        assert(f + Seq::<BlockView>::empty() =~= f);
    }
    false
}

pub proof fn lemma_indent_below_step(f: Seq<BlockView>, uid: Seq<char>, i: int)
    requires
        0 <= i < f.len(),
    ensures
        after_prefix(f.take(i), indent_below(f.skip(i), uid)) == (match indent(f[i].children, uid) {
            Some((c, p, o)) => Some((f.update(i, BlockView { children: c, ..f[i] }), p, o)),
            None => after_prefix(f.take(i + 1), indent_below(f.skip(i + 1), uid)),
        }),
{
    lemma_skip_step(f, i);
    let s = f.skip(i);
    match indent(f[i].children, uid) {
        Some((c, p, o)) => {
            let b = BlockView { children: c, ..f[i] };
            assert(f.take(i) + s.update(0, b) =~= f.update(i, b));
        },
        None => {
            match indent_below(f.skip(i + 1), uid) {
                Some((r, p, o)) => {
                    assert(f.take(i) + (seq![f[i]] + r) =~= f.take(i + 1) + r);
                },
                None => {},
            }
        },
    }
}

/// Makes the first block that carries `uid` the last sub-block of the sibling
/// before it, with the order that follows the last order there (0 where the
/// sibling had no sub-block). Returns the uid of the new parent and the new
/// order; `None`, with nothing changed, where [`indent`] gives none.
pub fn try_indent_in_list(blocks: &mut Vec<Block>, block_uid: &str) -> (r: Option<(String, i64)>)
    ensures
        r matches Some(p) ==> indent(forest_view(old(blocks)@), block_uid@) == Some(
            (forest_view(final(blocks)@), p.0@, p.1 as int),
        ),
        r is None ==> indent(forest_view(old(blocks)@), block_uid@) is None && forest_view(
            final(blocks)@,
        ) == forest_view(old(blocks)@),
    decreases forest_view(old(blocks)@),
{
    let ghost f = forest_view(blocks@);
    let ghost uid = block_uid@;
    match position_of(blocks, block_uid) {
        Some(pos) => {
            if pos == 0 {
                return None;
            }
            proof {
                lemma_view_index(blocks@, pos as int);
                lemma_view_index(blocks@, pos as int - 1);
                let kids = blocks@[pos as int - 1].children@;
                if kids.len() > 0 {
                    lemma_view_index(kids, kids.len() as int - 1);
                }
            }
            let n = blocks[pos - 1].children.len();
            let new_order: i64 = if n > 0 {
                let last = blocks[pos - 1].children[n - 1].order;
                if last == i64::MAX {
                    return None;
                }
                last + 1
            } else {
                0
            };
            let ghost before = blocks@;
            let mut block = blocks.remove(pos);
            block.order = new_order;
            let new_parent_uid = blocks[pos - 1].uid.clone();
            let ghost mid = blocks@;
            let ghost kids = blocks@[pos as int - 1].children@;
            blocks[pos - 1].children.push(block);
            proof {
                lemma_view_remove(before, pos as int);
                lemma_view_push(kids, block);
                assert(forest_view(blocks@) =~= indent_at(f, pos as int));
            }
            return Some((new_parent_uid, new_order));
        },
        None => {},
    }
    let mut i: usize = 0;
    proof {
        assert(f.skip(0) =~= f);
        assert(f.take(0) =~= Seq::<BlockView>::empty());
        match indent_below(f, uid) {
            Some((r, p, o)) => {
                assert(f.take(0) + r =~= r);
            },
            None => {},
        }
    }
    while i < blocks.len()
        invariant
            i <= blocks.len(),
            f == forest_view(old(blocks)@),
            f == forest_view(blocks@),
            f.len() == blocks.len(),
            uid == block_uid@,
            indent(f, uid) == indent_below(f, uid),
            indent_below(f, uid) == after_prefix(f.take(i as int), indent_below(f.skip(i as int), uid)),
        decreases blocks.len() - i,
    {
        proof {
            lemma_indent_below_step(f, uid, i as int);
            lemma_view_index(blocks@, i as int);
        }
        let below = try_indent_in_list(&mut blocks[i].children, block_uid);
        if below.is_some() {
            proof {
                let c = indent(f[i as int].children, uid).unwrap().0;
                assert(forest_view(blocks@) =~= f.update(
                    i as int,
                    BlockView { children: c, ..f[i as int] },
                ));
            }
            return below;
        }
        proof {
            assert(forest_view(blocks@) =~= f);
        }
        i += 1;
    }
    proof {
        assert(f.skip(f.len() as int) =~= Seq::<BlockView>::empty());
    }
    None
}

pub proof fn lemma_dedent_below_step(f: Seq<BlockView>, uid: Seq<char>, i: int)
    requires
        0 <= i < f.len(),
    ensures
        after_prefix(f.take(i), dedent_below(f.skip(i), uid)) == (match dedent(
            f[i].children,
            f[i].uid,
            uid,
        ) {
            Some((c, p, o)) => Some((f.update(i, BlockView { children: c, ..f[i] }), p, o)),
            None => after_prefix(f.take(i + 1), dedent_below(f.skip(i + 1), uid)),
        }),
{
    lemma_skip_step(f, i);
    let s = f.skip(i);
    match dedent(f[i].children, f[i].uid, uid) {
        Some((c, p, o)) => {
            let b = BlockView { children: c, ..f[i] };
            assert(f.take(i) + s.update(0, b) =~= f.update(i, b));
        },
        None => {
            match dedent_below(f.skip(i + 1), uid) {
                Some((r, p, o)) => {
                    assert(f.take(i) + (seq![f[i]] + r) =~= f.take(i + 1) + r);
                },
                None => {},
            }
        },
    }
}

/// Makes the first block below `grandparent_children` that carries `block_uid`
/// the next sibling of its parent, with the parent's order plus one. Returns
/// the uid of the new parent and the new order; `None`, with nothing changed,
/// where [`dedent`] gives none.
pub fn try_dedent_from_parent_list(
    grandparent_children: &mut Vec<Block>,
    grandparent_uid: &str,
    block_uid: &str,
) -> (r: Option<(String, i64)>)
    ensures
        r matches Some(p) ==> dedent(
            forest_view(old(grandparent_children)@),
            grandparent_uid@,
            block_uid@,
        ) == Some((forest_view(final(grandparent_children)@), p.0@, p.1 as int)),
        r is None ==> dedent(
            forest_view(old(grandparent_children)@),
            grandparent_uid@,
            block_uid@,
        ) is None && forest_view(final(grandparent_children)@) == forest_view(
            old(grandparent_children)@,
        ),
    decreases forest_view(old(grandparent_children)@),
{
    let ghost f = forest_view(grandparent_children@);
    let ghost uid = block_uid@;
    let mut parent_idx: usize = 0;
    proof {
        assert(f.skip(0) =~= f);
    }
    while parent_idx < grandparent_children.len()
        invariant
            parent_idx <= grandparent_children.len(),
            f == forest_view(old(grandparent_children)@),
            f == forest_view(grandparent_children@),
            grandparent_children@ == old(grandparent_children)@,
            f.len() == grandparent_children.len(),
            uid == block_uid@,
            parent_pos(f, uid) == moved_on(
                parent_pos(f.skip(parent_idx as int), uid),
                parent_idx as int,
            ),
        decreases grandparent_children.len() - parent_idx,
    {
        proof {
            lemma_skip_step(f, parent_idx as int);
            lemma_view_index(grandparent_children@, parent_idx as int);
        }
        match position_of(&grandparent_children[parent_idx].children, block_uid) {
            Some(child_pos) => {
                if grandparent_children[parent_idx].order == i64::MAX {
                    return None;
                }
                let ghost before = grandparent_children@;
                let ghost kids = grandparent_children@[parent_idx as int].children@;
                let mut block = grandparent_children[parent_idx].children.remove(child_pos);
                let new_order = grandparent_children[parent_idx].order + 1;
                block.order = new_order;
                let ghost mid = grandparent_children@;
                grandparent_children.insert(parent_idx + 1, block);
                proof {
                    lemma_view_remove(kids, child_pos as int);
                    lemma_view_index(kids, child_pos as int);
                    lemma_view_insert(mid, parent_idx as int + 1, block);
                    assert(forest_view(mid) =~= f.update(
                        parent_idx as int,
                        BlockView {
                            children: f[parent_idx as int].children.remove(child_pos as int),
                            ..f[parent_idx as int]
                        },
                    ));
                    assert(forest_view(grandparent_children@) =~= dedent_at(
                        f,
                        parent_idx as int,
                        child_pos as int,
                    ));
                }
                return Some((grandparent_uid.to_owned(), new_order));
            },
            None => {},
        }
        parent_idx += 1;
    }
    let mut i: usize = 0;
    proof {
        assert(f.skip(f.len() as int) =~= Seq::<BlockView>::empty());
        assert(f.take(0) =~= Seq::<BlockView>::empty());
        match dedent_below(f, uid) {
            Some((r, p, o)) => {
                assert(f.take(0) + r =~= r);
            },
            None => {},
        }
    }
    while i < grandparent_children.len()
        invariant
            i <= grandparent_children.len(),
            f == forest_view(old(grandparent_children)@),
            f == forest_view(grandparent_children@),
            f.len() == grandparent_children.len(),
            uid == block_uid@,
            dedent(f, grandparent_uid@, uid) == dedent_below(f, uid),
            dedent_below(f, uid) == after_prefix(f.take(i as int), dedent_below(f.skip(i as int), uid)),
        decreases grandparent_children.len() - i,
    {
        proof {
            lemma_dedent_below_step(f, uid, i as int);
            lemma_view_index(grandparent_children@, i as int);
        }
        let child_uid = grandparent_children[i].uid.clone();
        let below = try_dedent_from_parent_list(
            &mut grandparent_children[i].children,
            child_uid.as_str(),
            block_uid,
        );
        if below.is_some() {
            proof {
                let c = dedent(f[i as int].children, f[i as int].uid, uid).unwrap().0;
                assert(forest_view(grandparent_children@) =~= f.update(
                    i as int,
                    BlockView { children: c, ..f[i as int] },
                ));
            }
            return below;
        }
        proof {
            assert(forest_view(grandparent_children@) =~= f);
        }
        i += 1;
    }
    proof {
        assert(f.skip(f.len() as int) =~= Seq::<BlockView>::empty());
    }
    None
}

pub proof fn lemma_total_step(days: Seq<DailyNoteView>, lr: Seq<(Seq<char>, LinkedRefsView)>, i: int)
    requires
        0 <= i < days.len(),
    ensures
        total_rows(days.skip(i), lr) == day_rows(days[i], lr) + total_rows(days.skip(i + 1), lr),
        flat_count(days.skip(i)) == visible_count(days[i].blocks) + flat_count(days.skip(i + 1)),
        days.skip(0) == days,
{
    lemma_skip_step(days, i);
}

pub proof fn lemma_row_in_days_step(
    days: Seq<DailyNoteView>,
    lr: Seq<(Seq<char>, LinkedRefsView)>,
    t: nat,
    i: int,
)
    requires
        0 <= i < days.len(),
    ensures
        row_in_days(days.skip(i), lr, t) == (if t < visible_count(days[i].blocks) {
            row_at(days[i].blocks, days[i].uid, 0, t)
        } else if t < day_rows(days[i], lr) {
            None
        } else {
            row_in_days(days.skip(i + 1), lr, (t - day_rows(days[i], lr)) as nat)
        }),
{
    lemma_skip_step(days, i);
}

pub proof fn lemma_index_in_days_step(
    days: Seq<DailyNoteView>,
    lr: Seq<(Seq<char>, LinkedRefsView)>,
    uid: Seq<char>,
    i: int,
)
    requires
        0 <= i < days.len(),
    ensures
        index_in_days(days.skip(i), lr, uid) == (match index_of(days[i].blocks, uid) {
            Some(k) => Some(k),
            None => shifted(index_in_days(days.skip(i + 1), lr, uid), day_rows(days[i], lr)),
        }),
{
    lemma_skip_step(days, i);
}

/// Rows of the section of references held for the page `title`.
pub fn section_count_for(linked_refs: &StringMap<LinkedRefsState>, title: &str) -> (n: usize)
    requires
        refs_rows(linked_refs@, title@) <= usize::MAX,
    ensures
        n == refs_rows(linked_refs@, title@),
{
    match linked_refs.get(title) {
        Some(lr) => linked_ref_section_count(lr),
        None => 0,
    }
}

/// The block shown on row `index` among the rows of all pages; none where
/// the row shows a reference or lies past the last row.
pub fn resolve_block_at_index(
    days: &Vec<DailyNote>,
    linked_refs: &StringMap<LinkedRefsState>,
    index: usize,
) -> (r: Option<BlockInfo>)
    requires
        total_rows(days_view(days@), linked_refs@) <= usize::MAX,
    ensures
        r matches Some(info) ==> row_in_days(days_view(days@), linked_refs@, index as nat) == Some(
            info@,
        ),
        r is None ==> row_in_days(days_view(days@), linked_refs@, index as nat) is None,
{
    let ghost d = days_view(days@);
    let ghost lr = linked_refs@;
    let mut counter: usize = 0;
    let mut i: usize = 0;
    proof {
        assert(d.skip(0) =~= d);
    }
    while i < days.len()
        invariant
            i <= days.len(),
            d == days_view(days@),
            d.len() == days.len(),
            lr == linked_refs@,
            total_rows(d, lr) <= usize::MAX,
            counter + total_rows(d.skip(i as int), lr) == total_rows(d, lr),
            row_in_days(d, lr, index as nat) == (if index >= counter {
                row_in_days(d.skip(i as int), lr, (index - counter) as nat)
            } else {
                None
            }),
        decreases days.len() - i,
    {
        let ghost before = counter;
        proof {
            lemma_total_step(d, lr, i as int);
            if index >= counter {
                lemma_row_in_days_step(d, lr, (index - counter) as nat, i as int);
                lemma_row_bound(d[i as int].blocks, d[i as int].uid, 0, (index - counter) as nat);
            }
        }
        let found = resolve_in_blocks(&days[i].blocks, days[i].uid.as_str(), 0, index, &mut counter);
        if found.is_some() {
            return found;
        }
        counter = counter + section_count_for(linked_refs, days[i].title.as_str());
        i += 1;
    }
    None
}

/// The row of the first visible block that carries `uid`, among the rows of
/// all pages.
pub fn find_block_index_by_uid(
    days: &Vec<DailyNote>,
    linked_refs: &StringMap<LinkedRefsState>,
    uid: &str,
) -> (r: Option<usize>)
    requires
        total_rows(days_view(days@), linked_refs@) <= usize::MAX,
    ensures
        r matches Some(idx) ==> index_in_days(days_view(days@), linked_refs@, uid@) == Some(
            idx as nat,
        ),
        r is None ==> index_in_days(days_view(days@), linked_refs@, uid@) is None,
{
    let ghost d = days_view(days@);
    let ghost lr = linked_refs@;
    let mut counter: usize = 0;
    let mut i: usize = 0;
    proof {
        assert(d.skip(0) =~= d);
    }
    while i < days.len()
        invariant
            i <= days.len(),
            d == days_view(days@),
            d.len() == days.len(),
            lr == linked_refs@,
            total_rows(d, lr) <= usize::MAX,
            counter + total_rows(d.skip(i as int), lr) == total_rows(d, lr),
            index_in_days(d, lr, uid@) == shifted(
                index_in_days(d.skip(i as int), lr, uid@),
                counter as nat,
            ),
        decreases days.len() - i,
    {
        proof {
            lemma_total_step(d, lr, i as int);
            lemma_index_in_days_step(d, lr, uid@, i as int);
        }
        let found = find_index_in_blocks(&days[i].blocks, uid, &mut counter);
        if found.is_some() {
            return found;
        }
        counter = counter + section_count_for(linked_refs, days[i].title.as_str());
        i += 1;
    }
    None
}

/// The parent of a block is known exactly where the block is there.
pub proof fn lemma_parent_info_contains(f: Seq<BlockView>, parent: Seq<char>, uid: Seq<char>)
    ensures
        parent_info(f, parent, uid) is Some <==> contains(f, uid),
    decreases f,
{
    if f.len() > 0 && f[0].uid != uid {
        lemma_parent_info_contains(f[0].children, f[0].uid, uid);
        lemma_parent_info_contains(f.skip(1), parent, uid);
    }
}

pub proof fn lemma_days_update(s: Seq<DailyNote>, old_view: Seq<DailyNoteView>, i: int)
    requires
        0 <= i < s.len(),
        old_view.len() == s.len(),
        forall|j: int| 0 <= j < s.len() && j != i ==> s[j]@ == old_view[j],
        s[i]@.date == old_view[i].date,
        s[i]@.uid == old_view[i].uid,
        s[i]@.title == old_view[i].title,
    ensures
        days_view(s) == old_view.update(i, with_blocks(old_view[i], s[i]@.blocks)),
{
    assert(days_view(s) =~= old_view.update(i, with_blocks(old_view[i], s[i]@.blocks)));
}

/// A copy of the first block that carries `uid`.
pub fn find_block_in_days(days: &Vec<DailyNote>, uid: &str) -> (r: Option<Block>)
    ensures
        r matches Some(b) ==> doc_find(days_view(days@), uid@) == Some(b@),
        r is None ==> doc_find(days_view(days@), uid@) is None,
        r is Some <==> doc_contains(days_view(days@), uid@),
{
    let ghost d = days_view(days@);
    let ghost ok = holds(uid@);
    let mut i: usize = 0;
    while i < days.len()
        invariant
            i <= days.len(),
            d == days_view(days@),
            ok == holds(uid@),
            forall|j: int| 0 <= j < i ==> !#[trigger] ok(d[j]),
        decreases days.len() - i,
    {
        let found = find_block_recursive(&days[i].blocks, uid);
        if found.is_some() {
            proof {
                assert(ok(d[i as int]));
                lemma_first_day(d, ok, i as int);
            }
            return found;
        }
        assert(!ok(d[i as int]));
        i += 1;
    }
    proof {
        lemma_no_first_day(d, ok);
    }
    None
}

/// Parent and order of the first block that carries `uid`. The parent of a
/// top-level block is its page.
pub fn find_block_parent_info(days: &Vec<DailyNote>, uid: &str) -> (r: Option<(String, i64)>)
    ensures
        r matches Some(p) ==> doc_parent_info(days_view(days@), uid@) == Some((p.0@, p.1 as int)),
        r is None ==> doc_parent_info(days_view(days@), uid@) is None,
        r is Some <==> doc_contains(days_view(days@), uid@),
{
    let ghost d = days_view(days@);
    let ghost ok = holds(uid@);
    let mut i: usize = 0;
    while i < days.len()
        invariant
            i <= days.len(),
            d == days_view(days@),
            ok == holds(uid@),
            forall|j: int| 0 <= j < i ==> !#[trigger] ok(d[j]),
        decreases days.len() - i,
    {
        proof {
            lemma_parent_info_contains(d[i as int].blocks, d[i as int].uid, uid@);
        }
        let found = find_parent_info_recursive(&days[i].blocks, days[i].uid.as_str(), uid);
        if found.is_some() {
            proof {
                assert(ok(d[i as int]));
                lemma_first_day(d, ok, i as int);
            }
            return found;
        }
        assert(!ok(d[i as int]));
        i += 1;
    }
    proof {
        lemma_no_first_day(d, ok);
    }
    None
}

/// Gives the first block that carries `uid` the text `new_text`. Returns
/// whether there was one.
pub fn update_block_text_in_days(days: &mut Vec<DailyNote>, uid: &str, new_text: &str) -> (r: bool)
    ensures
        r == doc_contains(days_view(old(days)@), uid@),
        days_view(final(days)@) == doc_update(days_view(old(days)@), uid@, with_text(new_text@)),
{
    let ghost d = days_view(days@);
    let ghost ok = holds(uid@);
    let mut i: usize = 0;
    while i < days.len()
        invariant
            i <= days.len(),
            d == days_view(old(days)@),
            d == days_view(days@),
            ok == holds(uid@),
            forall|j: int| 0 <= j < i ==> !#[trigger] ok(d[j]),
        decreases days.len() - i,
    {
        if update_block_text(&mut days[i].blocks, uid, new_text) {
            proof {
                assert(ok(d[i as int]));
                lemma_first_day(d, ok, i as int);
                lemma_days_update(days@, d, i as int);
            }
            return true;
        }
        proof {
            assert(!ok(d[i as int]));
            lemma_update_absent(d[i as int].blocks, uid@, with_text(new_text@));
            assert(days_view(days@) =~= d);
        }
        i += 1;
    }
    proof {
        lemma_no_first_day(d, ok);
    }
    false
}

/// Opens or closes the first block that carries `uid`. Returns whether there
/// was one.
pub fn set_block_open(days: &mut Vec<DailyNote>, uid: &str, open: bool) -> (r: bool)
    ensures
        r == doc_contains(days_view(old(days)@), uid@),
        days_view(final(days)@) == doc_update(days_view(old(days)@), uid@, with_open(open)),
{
    let ghost d = days_view(days@);
    let ghost ok = holds(uid@);
    let mut i: usize = 0;
    while i < days.len()
        invariant
            i <= days.len(),
            d == days_view(old(days)@),
            d == days_view(days@),
            ok == holds(uid@),
            forall|j: int| 0 <= j < i ==> !#[trigger] ok(d[j]),
        decreases days.len() - i,
    {
        if set_open_recursive(&mut days[i].blocks, uid, open) {
            proof {
                assert(ok(d[i as int]));
                lemma_first_day(d, ok, i as int);
                lemma_days_update(days@, d, i as int);
            }
            return true;
        }
        proof {
            assert(!ok(d[i as int]));
            lemma_update_absent(d[i as int].blocks, uid@, with_open(open));
            assert(days_view(days@) =~= d);
        }
        i += 1;
    }
    proof {
        lemma_no_first_day(d, ok);
    }
    false
}

/// Takes the first block that carries `uid` out of its page, with all that
/// is below it. Returns whether there was one.
pub fn remove_block_from_days(days: &mut Vec<DailyNote>, uid: &str) -> (r: bool)
    ensures
        r == doc_contains(days_view(old(days)@), uid@),
        days_view(final(days)@) == doc_remove(days_view(old(days)@), uid@),
{
    let ghost d = days_view(days@);
    let ghost ok = holds(uid@);
    let mut i: usize = 0;
    while i < days.len()
        invariant
            i <= days.len(),
            d == days_view(old(days)@),
            d == days_view(days@),
            ok == holds(uid@),
            forall|j: int| 0 <= j < i ==> !#[trigger] ok(d[j]),
        decreases days.len() - i,
    {
        if remove_block(&mut days[i].blocks, uid) {
            proof {
                assert(ok(d[i as int]));
                lemma_first_day(d, ok, i as int);
                lemma_days_update(days@, d, i as int);
            }
            return true;
        }
        proof {
            assert(!ok(d[i as int]));
            lemma_remove_absent(d[i as int].blocks, uid@);
            assert(days_view(days@) =~= d);
        }
        i += 1;
    }
    proof {
        lemma_no_first_day(d, ok);
    }
    false
}

/// Makes the block that carries `block_uid` the last sub-block of the
/// sibling before it, on the first page where that can be done. Returns the
/// uid of the new parent and the new order; `None`, with nothing changed,
/// where it can be done on no page.
pub fn indent_block_in_days(days: &mut Vec<DailyNote>, block_uid: &str) -> (r: Option<(String, i64)>)
    ensures
        r matches Some(p) ==> doc_indent(days_view(old(days)@), block_uid@) == Some(
            (days_view(final(days)@), p.0@, p.1 as int),
        ),
        r is None ==> doc_indent(days_view(old(days)@), block_uid@) is None && days_view(
            final(days)@,
        ) == days_view(old(days)@),
{
    let ghost d = days_view(days@);
    let ghost ok = can_indent(block_uid@);
    let mut i: usize = 0;
    while i < days.len()
        invariant
            i <= days.len(),
            d == days_view(old(days)@),
            d == days_view(days@),
            ok == can_indent(block_uid@),
            forall|j: int| 0 <= j < i ==> !#[trigger] ok(d[j]),
        decreases days.len() - i,
    {
        let found = try_indent_in_list(&mut days[i].blocks, block_uid);
        if found.is_some() {
            proof {
                assert(ok(d[i as int]));
                lemma_first_day(d, ok, i as int);
                lemma_days_update(days@, d, i as int);
            }
            return found;
        }
        proof {
            assert(!ok(d[i as int]));
            assert(days_view(days@) =~= d);
        }
        i += 1;
    }
    proof {
        lemma_no_first_day(d, ok);
    }
    None
}

/// Makes the block that carries `block_uid` the next sibling of its parent,
/// on the first page where that can be done. Returns the uid of the new
/// parent and the new order; `None`, with nothing changed, where it can be
/// done on no page: a top-level block has no parent to follow.
pub fn dedent_block_in_days(days: &mut Vec<DailyNote>, block_uid: &str) -> (r: Option<(String, i64)>)
    ensures
        r matches Some(p) ==> doc_dedent(days_view(old(days)@), block_uid@) == Some(
            (days_view(final(days)@), p.0@, p.1 as int),
        ),
        r is None ==> doc_dedent(days_view(old(days)@), block_uid@) is None && days_view(
            final(days)@,
        ) == days_view(old(days)@),
{
    let ghost d = days_view(days@);
    let ghost ok = can_dedent(block_uid@);
    let mut i: usize = 0;
    while i < days.len()
        invariant
            i <= days.len(),
            d == days_view(old(days)@),
            d == days_view(days@),
            ok == can_dedent(block_uid@),
            forall|j: int| 0 <= j < i ==> !#[trigger] ok(d[j]),
        decreases days.len() - i,
    {
        let page_uid = days[i].uid.clone();
        let found = try_dedent_from_parent_list(&mut days[i].blocks, page_uid.as_str(), block_uid);
        if found.is_some() {
            proof {
                assert(ok(d[i as int]));
                lemma_first_day(d, ok, i as int);
                lemma_days_update(days@, d, i as int);
            }
            return found;
        }
        proof {
            assert(!ok(d[i as int]));
            assert(days_view(days@) =~= d);
        }
        i += 1;
    }
    proof {
        lemma_no_first_day(d, ok);
    }
    None
}

/// Puts `new_block` below `parent_uid`, before the first of the blocks there
/// whose order is at least `order`. The parent is a page or a block; the
/// first page that is it, or has a block that is, receives the block.
/// Returns whether there was one.
pub fn insert_block_in_days(
    days: &mut Vec<DailyNote>,
    parent_uid: &str,
    order: i64,
    new_block: Block,
) -> (r: bool)
    ensures
        r == doc_has_parent(days_view(old(days)@), parent_uid@),
        days_view(final(days)@) == doc_insert(
            days_view(old(days)@),
            parent_uid@,
            order as int,
            new_block@,
        ),
{
    let ghost d = days_view(days@);
    let ghost ok = takes(parent_uid@);
    let mut i: usize = 0;
    while i < days.len()
        invariant
            i <= days.len(),
            d == days_view(old(days)@),
            d == days_view(days@),
            ok == takes(parent_uid@),
            forall|j: int| 0 <= j < i ==> !#[trigger] ok(d[j]),
        decreases days.len() - i,
    {
        if str_eq(days[i].uid.as_str(), parent_uid) {
            let pos = insert_position(&days[i].blocks, order);
            let ghost kids = days@[i as int].blocks@;
            days[i].blocks.insert(pos, new_block);
            proof {
                assert(ok(d[i as int]));
                lemma_first_day(d, ok, i as int);
                lemma_view_insert(kids, pos as int, new_block);
                lemma_days_update(days@, d, i as int);
            }
            return true;
        }
        if insert_block_in_children(&mut days[i].blocks, parent_uid, order, &new_block) {
            proof {
                assert(ok(d[i as int]));
                lemma_first_day(d, ok, i as int);
                lemma_days_update(days@, d, i as int);
            }
            return true;
        }
        proof {
            assert(!ok(d[i as int]));
            lemma_update_absent(
                d[i as int].blocks,
                parent_uid@,
                with_child(order as int, new_block@),
            );
            assert(days_view(days@) =~= d);
        }
        i += 1;
    }
    proof {
        lemma_no_first_day(d, ok);
    }
    false
}

/// Takes the first block that carries `block_uid` out and puts it back below
/// `target_parent_uid` with the order `target_order`. Returns whether both
/// the block and its new parent were found; where only the parent was not,
/// the block is gone.
pub fn move_block_in_days(
    days: &mut Vec<DailyNote>,
    block_uid: &str,
    target_parent_uid: &str,
    target_order: i64,
) -> (r: bool)
    ensures
        r == doc_can_move(days_view(old(days)@), block_uid@, target_parent_uid@),
        days_view(final(days)@) == doc_move(
            days_view(old(days)@),
            block_uid@,
            target_parent_uid@,
            target_order as int,
        ),
{
    match find_block_in_days(days, block_uid) {
        Some(block) => {
            remove_block_from_days(days, block_uid);
            let mut moved = block;
            moved.order = target_order;
            insert_block_in_days(days, target_parent_uid, target_order, moved)
        },
        None => false,
    }
}

} // verus!

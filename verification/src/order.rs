use crate::bounds::{lemma_parent_pos_range, lemma_sibling_pos_range};
use crate::doc::{
    can_dedent, can_indent, doc_dedent, doc_find, doc_indent, doc_insert, doc_move, doc_remove,
    doc_update, first_day, holds, lemma_first_day_is, takes, with_blocks,
};
use crate::tree::{
    contains, dedent, dedent_at, dedent_below, find, indent, indent_at, indent_below, insert_pos,
    order_after_last, parent_pos, remove, remove_below, sibling_pos, update_first, with_child,
};
use crate::types::{BlockView, DailyNoteView};
use vstd::prelude::*;

verus! {

/// Whether the blocks of `f` stand in the order of their ranks, at every
/// depth: no block has a smaller order than a sibling before it.
pub open spec fn ranked(f: Seq<BlockView>) -> bool
    decreases f,
{
    &&& forall|i: int, j: int|
        0 <= i < j < f.len() ==> (#[trigger] f[i]).order <= (#[trigger] f[j]).order
    &&& forall|i: int| 0 <= i < f.len() ==> ranked((#[trigger] f[i]).children)
}

/// Whether the blocks of `f` stand in the order of their ranks and no two
/// siblings have the same order, at every depth.
pub open spec fn strictly_ranked(f: Seq<BlockView>) -> bool
    decreases f,
{
    &&& forall|i: int, j: int|
        0 <= i < j < f.len() ==> (#[trigger] f[i]).order < (#[trigger] f[j]).order
    &&& forall|i: int| 0 <= i < f.len() ==> strictly_ranked((#[trigger] f[i]).children)
}

/// Whether the blocks of every page stand in the order of their ranks.
pub open spec fn pages_ranked(days: Seq<DailyNoteView>) -> bool {
    forall|i: int| 0 <= i < days.len() ==> ranked((#[trigger] days[i]).blocks)
}

/// Whether the blocks of every page stand in the order of their ranks and no
/// two siblings have the same order.
pub open spec fn pages_strictly_ranked(days: Seq<DailyNoteView>) -> bool {
    forall|i: int| 0 <= i < days.len() ==> strictly_ranked((#[trigger] days[i]).blocks)
}

/// Whether `g` has the blocks of `f` themselves, with the same orders, in
/// the same places; what is below them may differ.
pub open spec fn same_ranks(f: Seq<BlockView>, g: Seq<BlockView>) -> bool {
    f.len() == g.len() && forall|i: int| 0 <= i < f.len() ==> (#[trigger] f[i]).order == g[i].order
}

pub proof fn lemma_strict_is_ranked(f: Seq<BlockView>)
    requires
        strictly_ranked(f),
    ensures
        ranked(f),
    decreases f,
{
    assert forall|i: int| 0 <= i < f.len() implies ranked((#[trigger] f[i]).children) by {
        lemma_strict_is_ranked(f[i].children);
    }
}

/// The rest of a list in order is in order, and so is what is below its
/// first block.
pub proof fn lemma_ranked_rest(f: Seq<BlockView>)
    requires
        ranked(f),
        f.len() > 0,
    ensures
        ranked(f.skip(1)),
        ranked(f[0].children),
        forall|j: int| 0 <= j < f.skip(1).len() ==> f[0].order <= (#[trigger] f.skip(1)[j]).order,
{
    let rest = f.skip(1);
    assert forall|i: int, j: int| 0 <= i < j < rest.len() implies (#[trigger] rest[i]).order <= (
    #[trigger] rest[j]).order by {
        assert(rest[i] == f[i + 1]);
        assert(rest[j] == f[j + 1]);
    }
    assert forall|i: int| 0 <= i < rest.len() implies ranked((#[trigger] rest[i]).children) by {
        assert(rest[i] == f[i + 1]);
    }
    assert forall|j: int| 0 <= j < rest.len() implies f[0].order <= (#[trigger] rest[j]).order by {
        assert(rest[j] == f[j + 1]);
    }
}

/// A block before a list in order, with no greater order than its blocks,
/// makes a list in order.
pub proof fn lemma_ranked_first(b: BlockView, r: Seq<BlockView>)
    requires
        ranked(b.children),
        ranked(r),
        forall|j: int| 0 <= j < r.len() ==> b.order <= (#[trigger] r[j]).order,
    ensures
        ranked(seq![b] + r),
{
    let f = seq![b] + r;
    assert forall|i: int, j: int| 0 <= i < j < f.len() implies (#[trigger] f[i]).order <= (
    #[trigger] f[j]).order by {
        assert(f[j] == r[j - 1]);
        if i > 0 {
            assert(f[i] == r[i - 1]);
        }
    }
    assert forall|i: int| 0 <= i < f.len() implies ranked((#[trigger] f[i]).children) by {
        if i > 0 {
            assert(f[i] == r[i - 1]);
        }
    }
}

/// A list in order stays in order where a block gets other sub-blocks that
/// are in order.
pub proof fn lemma_ranked_children(f: Seq<BlockView>, k: int, c: Seq<BlockView>)
    requires
        ranked(f),
        0 <= k < f.len(),
        ranked(c),
    ensures
        ranked(f.update(k, BlockView { children: c, ..f[k] })),
{
    let g = f.update(k, BlockView { children: c, ..f[k] });
    assert forall|i: int, j: int| 0 <= i < j < g.len() implies (#[trigger] g[i]).order <= (
    #[trigger] g[j]).order by {
        assert(g[i].order == f[i].order);
        assert(g[j].order == f[j].order);
    }
    assert forall|i: int| 0 <= i < g.len() implies ranked((#[trigger] g[i]).children) by {
        if i != k {
            assert(g[i] == f[i]);
        }
    }
}

/// A list in order stays in order without one of its blocks.
pub proof fn lemma_ranked_without(f: Seq<BlockView>, k: int)
    requires
        ranked(f),
        0 <= k < f.len(),
    ensures
        ranked(f.remove(k)),
{
    let g = f.remove(k);
    assert forall|i: int, j: int| 0 <= i < j < g.len() implies (#[trigger] g[i]).order <= (
    #[trigger] g[j]).order by {
        let i0 = if i < k { i } else { i + 1 };
        let j0 = if j < k { j } else { j + 1 };
        assert(g[i] == f[i0]);
        assert(g[j] == f[j0]);
    }
    assert forall|i: int| 0 <= i < g.len() implies ranked((#[trigger] g[i]).children) by {
        let i0 = if i < k { i } else { i + 1 };
        assert(g[i] == f[i0]);
    }
}

/// What [`insert_pos`] says of the place it gives among blocks in order:
/// every block before it has a smaller order, and every block from it on has
/// an order that is at least `order`.
pub proof fn lemma_insert_pos_ranked(f: Seq<BlockView>, order: int)
    requires
        ranked(f),
    ensures
        0 <= insert_pos(f, order) <= f.len(),
        forall|j: int| 0 <= j < insert_pos(f, order) ==> (#[trigger] f[j]).order < order,
        forall|j: int| insert_pos(f, order) <= j < f.len() ==> (#[trigger] f[j]).order >= order,
    decreases f.len(),
{
    if f.len() > 0 {
        lemma_ranked_rest(f);
        let rest = f.skip(1);
        if f[0].order >= order {
            assert forall|j: int| 0 <= j < f.len() implies (#[trigger] f[j]).order >= order by {
                if j > 0 {
                    assert(rest[j - 1] == f[j]);
                }
            }
        } else {
            lemma_insert_pos_ranked(rest, order);
            assert forall|j: int| 0 <= j < insert_pos(f, order) implies (#[trigger] f[j]).order
                < order by {
                if j > 0 {
                    assert(rest[j - 1] == f[j]);
                }
            }
            assert forall|j: int| insert_pos(f, order) <= j < f.len() implies (#[trigger] f[j]).order
                >= order by {
                assert(rest[j - 1] == f[j]);
            }
        }
    }
}

/// A list in order stays in order with a block put where its order places
/// it.
pub proof fn lemma_ranked_with(f: Seq<BlockView>, b: BlockView)
    requires
        ranked(f),
        ranked(b.children),
    ensures
        ranked(f.insert(insert_pos(f, b.order), b)),
{
    lemma_insert_pos_ranked(f, b.order);
    let p = insert_pos(f, b.order);
    let g = f.insert(p, b);
    assert forall|i: int, j: int| 0 <= i < j < g.len() implies (#[trigger] g[i]).order <= (
    #[trigger] g[j]).order by {
        if i < p {
            assert(g[i] == f[i]);
        } else if i > p {
            assert(g[i] == f[i - 1]);
        }
        if j < p {
            assert(g[j] == f[j]);
        } else if j > p {
            assert(g[j] == f[j - 1]);
        }
    }
    assert forall|i: int| 0 <= i < g.len() implies ranked((#[trigger] g[i]).children) by {
        if i < p {
            assert(g[i] == f[i]);
        } else if i > p {
            assert(g[i] == f[i - 1]);
        }
    }
}

/// Taking a block out from below the blocks of a list leaves those blocks
/// in their places.
pub proof fn lemma_remove_below_ranks(f: Seq<BlockView>, uid: Seq<char>)
    ensures
        same_ranks(f, remove_below(f, uid)),
    decreases f.len(),
{
    if f.len() > 0 && !contains(f[0].children, uid) {
        lemma_remove_below_ranks(f.skip(1), uid);
        let r = remove_below(f.skip(1), uid);
        let g = seq![f[0]] + r;
        assert forall|i: int| 0 <= i < f.len() implies (#[trigger] f[i]).order == g[i].order by {
            if i > 0 {
                assert(f.skip(1)[i - 1] == f[i]);
                assert(g[i] == r[i - 1]);
            }
        }
    }
}

/// Blocks in order stay in order where one is taken out.
pub proof fn lemma_remove_ranked(f: Seq<BlockView>, uid: Seq<char>)
    requires
        ranked(f),
    ensures
        ranked(remove(f, uid)),
    decreases f, 1int,
{
    lemma_sibling_pos_range(f, uid);
    match sibling_pos(f, uid) {
        Some(k) => {
            lemma_ranked_without(f, k);
        },
        None => {
            lemma_remove_below_ranked(f, uid);
        },
    }
}

pub proof fn lemma_remove_below_ranked(f: Seq<BlockView>, uid: Seq<char>)
    requires
        ranked(f),
    ensures
        ranked(remove_below(f, uid)),
    decreases f, 0int,
{
    if f.len() > 0 {
        lemma_ranked_rest(f);
        if contains(f[0].children, uid) {
            lemma_remove_ranked(f[0].children, uid);
            lemma_ranked_children(f, 0, remove(f[0].children, uid));
        } else {
            lemma_remove_below_ranked(f.skip(1), uid);
            lemma_remove_below_ranks(f.skip(1), uid);
            let r = remove_below(f.skip(1), uid);
            assert forall|j: int| 0 <= j < r.len() implies f[0].order <= (#[trigger] r[j]).order by {
                assert(f.skip(1)[j].order == r[j].order);
            }
            lemma_ranked_first(f[0], r);
        }
    }
}

/// Putting a block below one of the blocks of a list leaves those blocks in
/// their places.
pub proof fn lemma_insert_ranks(f: Seq<BlockView>, parent: Seq<char>, b: BlockView)
    ensures
        same_ranks(f, update_first(f, parent, with_child(b.order, b))),
    decreases f.len(),
{
    let g = with_child(b.order, b);
    if f.len() > 0 && f[0].uid != parent && !contains(f[0].children, parent) {
        lemma_insert_ranks(f.skip(1), parent, b);
        let r = update_first(f.skip(1), parent, g);
        let h = seq![f[0]] + r;
        assert forall|i: int| 0 <= i < f.len() implies (#[trigger] f[i]).order == h[i].order by {
            if i > 0 {
                assert(f.skip(1)[i - 1] == f[i]);
                assert(h[i] == r[i - 1]);
            }
        }
    }
}

/// Blocks in order stay in order where a block is put below one of them,
/// where its order places it.
pub proof fn lemma_insert_ranked(f: Seq<BlockView>, parent: Seq<char>, b: BlockView)
    requires
        ranked(f),
        ranked(b.children),
    ensures
        ranked(update_first(f, parent, with_child(b.order, b))),
    decreases f,
{
    let g = with_child(b.order, b);
    if f.len() > 0 {
        lemma_ranked_rest(f);
        if f[0].uid == parent {
            lemma_ranked_with(f[0].children, b);
            lemma_ranked_children(f, 0, f[0].children.insert(insert_pos(f[0].children, b.order), b));
            assert(g(f[0]) == BlockView {
                children: f[0].children.insert(insert_pos(f[0].children, b.order), b),
                ..f[0]
            });
        } else if contains(f[0].children, parent) {
            lemma_insert_ranked(f[0].children, parent, b);
            lemma_ranked_children(f, 0, update_first(f[0].children, parent, g));
        } else {
            lemma_insert_ranked(f.skip(1), parent, b);
            lemma_insert_ranks(f.skip(1), parent, b);
            let r = update_first(f.skip(1), parent, g);
            assert forall|j: int| 0 <= j < r.len() implies f[0].order <= (#[trigger] r[j]).order by {
                assert(f.skip(1)[j].order == r[j].order);
            }
            lemma_ranked_first(f[0], r);
        }
    }
}

/// Indenting a block from below the blocks of a list leaves those blocks in
/// their places.
pub proof fn lemma_indent_below_ranks(f: Seq<BlockView>, uid: Seq<char>)
    ensures
        indent_below(f, uid) matches Some(r) ==> same_ranks(f, r.0),
    decreases f.len(),
{
    if f.len() > 0 && indent(f[0].children, uid) is None {
        lemma_indent_below_ranks(f.skip(1), uid);
        match indent_below(f.skip(1), uid) {
            Some((r, p, o)) => {
                let g = seq![f[0]] + r;
                assert forall|i: int| 0 <= i < f.len() implies (#[trigger] f[i]).order
                    == g[i].order by {
                    if i > 0 {
                        assert(f.skip(1)[i - 1] == f[i]);
                        assert(g[i] == r[i - 1]);
                    }
                }
            },
            None => {},
        }
    }
}

/// Blocks in order stay in order where one becomes the last sub-block of
/// the block before it.
pub proof fn lemma_indent_at_ranked(f: Seq<BlockView>, pos: int)
    requires
        ranked(f),
        0 < pos < f.len(),
    ensures
        ranked(indent_at(f, pos)),
{
    let prev = f[pos - 1];
    let moved = BlockView { order: order_after_last(prev), ..f[pos] };
    let c = prev.children.push(moved);
    assert(ranked(prev.children));
    assert(ranked(f[pos].children));
    assert forall|i: int, j: int| 0 <= i < j < c.len() implies (#[trigger] c[i]).order <= (
    #[trigger] c[j]).order by {
        assert(c[i] == prev.children[i]);
        if j < prev.children.len() {
            assert(c[j] == prev.children[j]);
        } else {
            assert(prev.children[i].order <= prev.children.last().order);
        }
    }
    assert forall|i: int| 0 <= i < c.len() implies ranked((#[trigger] c[i]).children) by {
        if i < prev.children.len() {
            assert(c[i] == prev.children[i]);
        }
    }
    lemma_ranked_without(f, pos);
    assert(f.remove(pos)[pos - 1] == prev);
    lemma_ranked_children(f.remove(pos), pos - 1, c);
}

/// Blocks in order stay in order where one is indented.
pub proof fn lemma_indent_ranked(f: Seq<BlockView>, uid: Seq<char>)
    requires
        ranked(f),
    ensures
        indent(f, uid) matches Some(r) ==> ranked(r.0),
    decreases f, 1int,
{
    lemma_sibling_pos_range(f, uid);
    match sibling_pos(f, uid) {
        Some(pos) => {
            if pos > 0 {
                lemma_indent_at_ranked(f, pos);
            }
        },
        None => {
            lemma_indent_below_ranked(f, uid);
        },
    }
}

pub proof fn lemma_indent_below_ranked(f: Seq<BlockView>, uid: Seq<char>)
    requires
        ranked(f),
    ensures
        indent_below(f, uid) matches Some(r) ==> ranked(r.0),
    decreases f, 0int,
{
    if f.len() > 0 {
        lemma_ranked_rest(f);
        match indent(f[0].children, uid) {
            Some((c, p, o)) => {
                lemma_indent_ranked(f[0].children, uid);
                lemma_ranked_children(f, 0, c);
            },
            None => {
                lemma_indent_below_ranked(f.skip(1), uid);
                lemma_indent_below_ranks(f.skip(1), uid);
                match indent_below(f.skip(1), uid) {
                    Some((r, p, o)) => {
                        assert forall|j: int| 0 <= j < r.len() implies f[0].order <= (
                        #[trigger] r[j]).order by {
                            assert(f.skip(1)[j].order == r[j].order);
                        }
                        lemma_ranked_first(f[0], r);
                    },
                    None => {},
                }
            },
        }
    }
}

/// The rest of a list in strict order is in strict order, and so is what is
/// below its first block.
pub proof fn lemma_strict_rest(f: Seq<BlockView>)
    requires
        strictly_ranked(f),
        f.len() > 0,
    ensures
        strictly_ranked(f.skip(1)),
        strictly_ranked(f[0].children),
{
    let rest = f.skip(1);
    assert forall|i: int, j: int| 0 <= i < j < rest.len() implies (#[trigger] rest[i]).order < (
    #[trigger] rest[j]).order by {
        assert(rest[i] == f[i + 1]);
        assert(rest[j] == f[j + 1]);
    }
    assert forall|i: int| 0 <= i < rest.len() implies strictly_ranked(
        (#[trigger] rest[i]).children,
    ) by {
        assert(rest[i] == f[i + 1]);
    }
}

/// Dedenting a block from below the blocks of a list leaves those blocks in
/// their places.
pub proof fn lemma_dedent_below_ranks(f: Seq<BlockView>, uid: Seq<char>)
    ensures
        dedent_below(f, uid) matches Some(r) ==> same_ranks(f, r.0),
    decreases f.len(),
{
    if f.len() > 0 && dedent(f[0].children, f[0].uid, uid) is None {
        lemma_dedent_below_ranks(f.skip(1), uid);
        match dedent_below(f.skip(1), uid) {
            Some((r, p, o)) => {
                let g = seq![f[0]] + r;
                assert forall|i: int| 0 <= i < f.len() implies (#[trigger] f[i]).order
                    == g[i].order by {
                    if i > 0 {
                        assert(f.skip(1)[i - 1] == f[i]);
                        assert(g[i] == r[i - 1]);
                    }
                }
            },
            None => {},
        }
    }
}

/// Blocks in strict order are in order after a sub-block of one of them has
/// become its next sibling.
pub proof fn lemma_dedent_at_ranked(f: Seq<BlockView>, p: int, c: int)
    requires
        strictly_ranked(f),
        0 <= p < f.len(),
        0 <= c < f[p].children.len(),
    ensures
        ranked(dedent_at(f, p, c)),
{
    lemma_strict_is_ranked(f);
    let parent = f[p];
    let moved = BlockView { order: parent.order + 1, ..parent.children[c] };
    assert(ranked(parent.children));
    lemma_ranked_without(parent.children, c);
    lemma_ranked_children(f, p, parent.children.remove(c));
    let shrunk = f.update(p, BlockView { children: parent.children.remove(c), ..parent });
    let g = shrunk.insert(p + 1, moved);
    assert(ranked(moved.children));
    assert forall|i: int, j: int| 0 <= i < j < g.len() implies (#[trigger] g[i]).order <= (
    #[trigger] g[j]).order by {
        let a = if i <= p { f[i].order } else if i == p + 1 { parent.order + 1 } else { f[i - 1].order };
        let b = if j <= p { f[j].order } else if j == p + 1 { parent.order + 1 } else { f[j - 1].order };
        if i <= p {
            assert(g[i] == shrunk[i]);
        } else if i > p + 1 {
            assert(g[i] == shrunk[i - 1]);
        }
        if j <= p {
            assert(g[j] == shrunk[j]);
        } else if j > p + 1 {
            assert(g[j] == shrunk[j - 1]);
        }
        assert(g[i].order == a);
        assert(g[j].order == b);
        if i <= p && j == p + 1 {
            if i < p {
                assert(f[i].order < f[p].order);
            }
        }
        if i == p + 1 {
            assert(f[p].order < f[j - 1].order);
        }
        if i <= p && j > p + 1 {
            assert(f[i].order < f[j - 1].order);
        }
        if i > p + 1 {
            assert(f[i - 1].order < f[j - 1].order);
        }
        if j <= p {
            assert(f[i].order < f[j].order);
        }
    }
    assert forall|i: int| 0 <= i < g.len() implies ranked((#[trigger] g[i]).children) by {
        if i <= p {
            assert(g[i] == shrunk[i]);
        } else if i > p + 1 {
            assert(g[i] == shrunk[i - 1]);
        }
    }
}

/// Blocks in strict order are in order after one is dedented.
pub proof fn lemma_dedent_ranked(f: Seq<BlockView>, owner: Seq<char>, uid: Seq<char>)
    requires
        strictly_ranked(f),
    ensures
        dedent(f, owner, uid) matches Some(r) ==> ranked(r.0),
    decreases f, 1int,
{
    lemma_parent_pos_range(f, uid);
    match parent_pos(f, uid) {
        Some(p) => {
            lemma_sibling_pos_range(f[p].children, uid);
            lemma_dedent_at_ranked(f, p, sibling_pos(f[p].children, uid).unwrap());
        },
        None => {
            lemma_dedent_below_ranked(f, uid);
        },
    }
}

pub proof fn lemma_dedent_below_ranked(f: Seq<BlockView>, uid: Seq<char>)
    requires
        strictly_ranked(f),
    ensures
        dedent_below(f, uid) matches Some(r) ==> ranked(r.0),
    decreases f, 0int,
{
    if f.len() > 0 {
        lemma_strict_is_ranked(f);
        lemma_strict_rest(f);
        lemma_ranked_rest(f);
        match dedent(f[0].children, f[0].uid, uid) {
            Some((c, p, o)) => {
                lemma_dedent_ranked(f[0].children, f[0].uid, uid);
                lemma_ranked_children(f, 0, c);
            },
            None => {
                lemma_dedent_below_ranked(f.skip(1), uid);
                lemma_dedent_below_ranks(f.skip(1), uid);
                match dedent_below(f.skip(1), uid) {
                    Some((r, p, o)) => {
                        assert forall|j: int| 0 <= j < r.len() implies f[0].order <= (
                        #[trigger] r[j]).order by {
                            assert(f.skip(1)[j].order == r[j].order);
                        }
                        lemma_ranked_first(f[0], r);
                    },
                    None => {},
                }
            },
        }
    }
}

/// A block that is found among blocks in order has its sub-blocks in order.
pub proof fn lemma_found_ranked(f: Seq<BlockView>, uid: Seq<char>)
    requires
        ranked(f),
    ensures
        find(f, uid) matches Some(b) ==> ranked(b.children),
    decreases f,
{
    if f.len() > 0 && f[0].uid != uid {
        lemma_ranked_rest(f);
        lemma_found_ranked(f[0].children, uid);
        lemma_found_ranked(f.skip(1), uid);
    }
}

/// The pages stay in order where the blocks of one are replaced by blocks
/// in order.
pub proof fn lemma_pages_ranked(days: Seq<DailyNoteView>, i: int, blocks: Seq<BlockView>)
    requires
        pages_ranked(days),
        0 <= i < days.len(),
        ranked(blocks),
    ensures
        pages_ranked(days.update(i, with_blocks(days[i], blocks))),
{
    let after = days.update(i, with_blocks(days[i], blocks));
    assert forall|k: int| 0 <= k < after.len() implies ranked((#[trigger] after[k]).blocks) by {
        if k != i {
            assert(after[k] == days[k]);
        }
    }
}

/// Taking a block out keeps the blocks of every page in the order of their
/// ranks.
pub proof fn law_remove_keeps_order(days: Seq<DailyNoteView>, uid: Seq<char>)
    requires
        pages_ranked(days),
    ensures
        pages_ranked(doc_remove(days, uid)),
{
    lemma_first_day_is(days, holds(uid));
    match first_day(days, holds(uid)) {
        Some(i) => {
            lemma_remove_ranked(days[i].blocks, uid);
            lemma_pages_ranked(days, i, remove(days[i].blocks, uid));
        },
        None => {},
    }
}

/// Putting a block in where its order places it keeps the blocks of every
/// page in the order of their ranks. This is said of a block whose own
/// sub-blocks are in order.
pub proof fn law_insert_keeps_order(days: Seq<DailyNoteView>, parent: Seq<char>, block: BlockView)
    requires
        pages_ranked(days),
        ranked(block.children),
    ensures
        pages_ranked(doc_insert(days, parent, block.order, block)),
{
    lemma_first_day_is(days, takes(parent));
    match first_day(days, takes(parent)) {
        Some(i) => {
            if days[i].uid == parent {
                lemma_ranked_with(days[i].blocks, block);
                lemma_pages_ranked(
                    days,
                    i,
                    days[i].blocks.insert(insert_pos(days[i].blocks, block.order), block),
                );
            } else {
                lemma_insert_ranked(days[i].blocks, parent, block);
                lemma_pages_ranked(
                    days,
                    i,
                    update_first(days[i].blocks, parent, with_child(block.order, block)),
                );
            }
        },
        None => {},
    }
}

/// Moving a block to another place, with the order of that place, keeps the
/// blocks of every page in the order of their ranks.
pub proof fn law_move_keeps_order(
    days: Seq<DailyNoteView>,
    uid: Seq<char>,
    parent: Seq<char>,
    order: int,
)
    requires
        pages_ranked(days),
    ensures
        pages_ranked(doc_move(days, uid, parent, order)),
{
    lemma_first_day_is(days, holds(uid));
    match doc_find(days, uid) {
        Some(b) => {
            let i = first_day(days, holds(uid)).unwrap();
            lemma_found_ranked(days[i].blocks, uid);
            law_remove_keeps_order(days, uid);
            law_insert_keeps_order(doc_remove(days, uid), parent, BlockView { order: order, ..b });
        },
        None => {},
    }
}

/// Indenting a block keeps the blocks of every page in the order of their
/// ranks.
pub proof fn law_indent_keeps_order(days: Seq<DailyNoteView>, uid: Seq<char>)
    requires
        pages_ranked(days),
    ensures
        doc_indent(days, uid) matches Some(r) ==> pages_ranked(r.0),
{
    lemma_first_day_is(days, can_indent(uid));
    match first_day(days, can_indent(uid)) {
        Some(i) => {
            lemma_indent_ranked(days[i].blocks, uid);
            lemma_pages_ranked(days, i, indent(days[i].blocks, uid).unwrap().0);
        },
        None => {},
    }
}

/// Dedenting a block leaves the blocks of every page in the order of their
/// ranks, where no two siblings had the same order before: the block gets
/// the order after that of its parent, which the next sibling of the parent
/// may have too.
pub proof fn law_dedent_keeps_order(days: Seq<DailyNoteView>, uid: Seq<char>)
    requires
        pages_strictly_ranked(days),
    ensures
        doc_dedent(days, uid) matches Some(r) ==> pages_ranked(r.0),
{
    assert forall|k: int| 0 <= k < days.len() implies ranked((#[trigger] days[k]).blocks) by {
        lemma_strict_is_ranked(days[k].blocks);
    }
    lemma_first_day_is(days, can_dedent(uid));
    match first_day(days, can_dedent(uid)) {
        Some(i) => {
            lemma_dedent_ranked(days[i].blocks, days[i].uid, uid);
            lemma_pages_ranked(days, i, dedent(days[i].blocks, days[i].uid, uid).unwrap().0);
        },
        None => {},
    }
}

/// A change to the text of a block, or to whether it is open, keeps the
/// blocks of every page in the order of their ranks: no block moves and no
/// order changes.
pub proof fn law_edit_keeps_order(
    days: Seq<DailyNoteView>,
    uid: Seq<char>,
    g: spec_fn(BlockView) -> BlockView,
)
    requires
        pages_ranked(days),
        forall|b: BlockView| (#[trigger] g(b)).order == b.order && g(b).children == b.children,
    ensures
        pages_ranked(doc_update(days, uid, g)),
{
    lemma_first_day_is(days, holds(uid));
    match first_day(days, holds(uid)) {
        Some(i) => {
            lemma_update_ranked(days[i].blocks, uid, g);
            lemma_pages_ranked(days, i, update_first(days[i].blocks, uid, g));
        },
        None => {},
    }
}

/// Blocks in order stay in order where one is changed in a way that keeps
/// its order and what is below it.
pub proof fn lemma_update_ranked(f: Seq<BlockView>, uid: Seq<char>, g: spec_fn(BlockView) -> BlockView)
    requires
        ranked(f),
        forall|b: BlockView| (#[trigger] g(b)).order == b.order && g(b).children == b.children,
    ensures
        ranked(update_first(f, uid, g)),
        same_ranks(f, update_first(f, uid, g)),
    decreases f,
{
    if f.len() > 0 {
        lemma_ranked_rest(f);
        if f[0].uid == uid {
            let h = f.update(0, g(f[0]));
            assert forall|i: int, j: int| 0 <= i < j < h.len() implies (#[trigger] h[i]).order <= (
            #[trigger] h[j]).order by {
                assert(h[i].order == f[i].order);
                assert(h[j].order == f[j].order);
            }
            assert forall|i: int| 0 <= i < h.len() implies ranked((#[trigger] h[i]).children) by {
                if i > 0 {
                    assert(h[i] == f[i]);
                }
            }
        } else if contains(f[0].children, uid) {
            lemma_update_ranked(f[0].children, uid, g);
            lemma_ranked_children(f, 0, update_first(f[0].children, uid, g));
        } else {
            lemma_update_ranked(f.skip(1), uid, g);
            let r = update_first(f.skip(1), uid, g);
            let h = seq![f[0]] + r;
            assert forall|j: int| 0 <= j < r.len() implies f[0].order <= (#[trigger] r[j]).order by {
                assert(f.skip(1)[j].order == r[j].order);
            }
            lemma_ranked_first(f[0], r);
            assert forall|i: int| 0 <= i < f.len() implies (#[trigger] f[i]).order == h[i].order by {
                if i > 0 {
                    assert(f.skip(1)[i - 1] == f[i]);
                    assert(h[i] == r[i - 1]);
                }
            }
        }
    }
}

} // verus!

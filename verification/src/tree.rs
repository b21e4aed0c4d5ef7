use crate::types::BlockView;
use vstd::prelude::*;

verus! {

/// What one visible row of the outline shows of its block.
pub struct RowView {
    pub block_uid: Seq<char>,
    pub parent_uid: Seq<char>,
    pub text: Seq<char>,
    pub order: int,
    pub depth: nat,
}

/// Rows that a block occupies: itself, and its sub-blocks while it is open.
pub open spec fn rows(b: BlockView) -> nat
    decreases b,
{
    if b.open {
        1 + visible_count(b.children)
    } else {
        1
    }
}

/// Rows that a list of blocks occupies.
pub open spec fn visible_count(f: Seq<BlockView>) -> nat
    decreases f,
{
    if f.len() == 0 {
        0
    } else {
        rows(f[0]) + visible_count(f.skip(1))
    }
}

/// Row of the first visible block that carries `uid`, counted from the first
/// row of `f`.
pub open spec fn index_of(f: Seq<BlockView>, uid: Seq<char>) -> Option<nat>
    decreases f,
{
    if f.len() == 0 {
        None
    } else if f[0].uid == uid {
        Some(0)
    } else {
        let below = if f[0].open {
            index_of(f[0].children, uid)
        } else {
            None
        };
        match below {
            Some(k) => Some(1 + k),
            None => match index_of(f.skip(1), uid) {
                Some(k) => Some(rows(f[0]) + k),
                None => None,
            },
        }
    }
}

/// The block shown on row `t` of `f`, with the uid of its parent and its depth;
/// `parent` and `depth` are those of the blocks of `f` themselves.
pub open spec fn row_at(f: Seq<BlockView>, parent: Seq<char>, depth: nat, t: nat) -> Option<RowView>
    decreases f,
{
    if f.len() == 0 {
        None
    } else if t == 0 {
        Some(
            RowView {
                block_uid: f[0].uid,
                parent_uid: parent,
                text: f[0].text,
                order: f[0].order,
                depth: depth,
            },
        )
    } else if t < rows(f[0]) {
        row_at(f[0].children, f[0].uid, depth + 1, (t - 1) as nat)
    } else {
        row_at(f.skip(1), parent, depth, (t - rows(f[0])) as nat)
    }
}

/// The first block that carries `uid`, searching each block before its
/// sub-blocks and those before its later siblings, open or not.
pub open spec fn find(f: Seq<BlockView>, uid: Seq<char>) -> Option<BlockView>
    decreases f,
{
    if f.len() == 0 {
        None
    } else if f[0].uid == uid {
        Some(f[0])
    } else {
        match find(f[0].children, uid) {
            Some(b) => Some(b),
            None => find(f.skip(1), uid),
        }
    }
}

/// Whether some block of `f`, at any depth, carries `uid`.
pub open spec fn contains(f: Seq<BlockView>, uid: Seq<char>) -> bool {
    find(f, uid) is Some
}

/// The uid of the parent of the first block that carries `uid`, and that
/// block's order; `parent` is the parent of the blocks of `f` themselves.
pub open spec fn parent_info(f: Seq<BlockView>, parent: Seq<char>, uid: Seq<char>) -> Option<
    (Seq<char>, int),
>
    decreases f,
{
    if f.len() == 0 {
        None
    } else if f[0].uid == uid {
        Some((parent, f[0].order))
    } else {
        match parent_info(f[0].children, f[0].uid, uid) {
            Some(p) => Some(p),
            None => parent_info(f.skip(1), parent, uid),
        }
    }
}

/// `f` with `g` applied to the first block that carries `uid` (in the order of
/// [`find`]); `f` itself where no block does.
pub open spec fn update_first(
    f: Seq<BlockView>,
    uid: Seq<char>,
    g: spec_fn(BlockView) -> BlockView,
) -> Seq<BlockView>
    decreases f,
{
    if f.len() == 0 {
        f
    } else if f[0].uid == uid {
        f.update(0, g(f[0]))
    } else if contains(f[0].children, uid) {
        f.update(0, BlockView { children: update_first(f[0].children, uid, g), ..f[0] })
    } else {
        seq![f[0]] + update_first(f.skip(1), uid, g)
    }
}

/// The change that gives a block the text `text`.
pub open spec fn with_text(text: Seq<char>) -> spec_fn(BlockView) -> BlockView {
    |b: BlockView| BlockView { text: text, ..b }
}

/// The change that gives a block the order `order`.
pub open spec fn with_order(order: int) -> spec_fn(BlockView) -> BlockView {
    |b: BlockView| BlockView { order: order, ..b }
}

/// The change that opens or closes a block.
pub open spec fn with_open(open: bool) -> spec_fn(BlockView) -> BlockView {
    |b: BlockView| BlockView { open: open, ..b }
}

/// The change that puts `block` among the sub-blocks of a block, at the place
/// that its rank `order` gives it.
pub open spec fn with_child(order: int, block: BlockView) -> spec_fn(BlockView) -> BlockView {
    |b: BlockView| BlockView { children: b.children.insert(insert_pos(b.children, order), block), ..b }
}

/// Position among the blocks of `f` themselves of the first that carries `uid`.
pub open spec fn sibling_pos(f: Seq<BlockView>, uid: Seq<char>) -> Option<int>
    decreases f.len(),
{
    if f.len() == 0 {
        None
    } else if f[0].uid == uid {
        Some(0)
    } else {
        match sibling_pos(f.skip(1), uid) {
            Some(k) => Some(k + 1),
            None => None,
        }
    }
}

/// Where a block of rank `order` goes among `f`: before the first block whose
/// order is at least `order`, at the end where there is none.
pub open spec fn insert_pos(f: Seq<BlockView>, order: int) -> int
    decreases f.len(),
{
    if f.len() == 0 {
        0
    } else if f[0].order >= order {
        0
    } else {
        1 + insert_pos(f.skip(1), order)
    }
}

/// `f` without the first block that carries `uid`. A block among those of `f`
/// themselves goes before any at a greater depth; failing that, the sub-blocks
/// of each block are searched in turn.
pub open spec fn remove(f: Seq<BlockView>, uid: Seq<char>) -> Seq<BlockView>
    decreases f, 1int,
{
    match sibling_pos(f, uid) {
        Some(k) => f.remove(k),
        None => remove_below(f, uid),
    }
}

/// [`remove`] where none of the blocks of `f` themselves carries `uid`.
pub open spec fn remove_below(f: Seq<BlockView>, uid: Seq<char>) -> Seq<BlockView>
    decreases f, 0int,
{
    if f.len() == 0 {
        f
    } else if contains(f[0].children, uid) {
        f.update(0, BlockView { children: remove(f[0].children, uid), ..f[0] })
    } else {
        seq![f[0]] + remove_below(f.skip(1), uid)
    }
}

/// Number of blocks in `f`, at every depth, open or not.
pub open spec fn size(f: Seq<BlockView>) -> nat
    decreases f,
{
    if f.len() == 0 {
        0
    } else {
        1 + size(f[0].children) + size(f.skip(1))
    }
}

/// The greatest order that a block can carry.
pub open spec fn max_order() -> int {
    i64::MAX as int
}

/// The order given to a block that becomes the last sub-block of `prev`.
pub open spec fn order_after_last(prev: BlockView) -> int {
    if prev.children.len() > 0 {
        prev.children.last().order + 1
    } else {
        0
    }
}

/// `f` after the block at `pos` has become the last sub-block of the block
/// before it.
pub open spec fn indent_at(f: Seq<BlockView>, pos: int) -> Seq<BlockView> {
    let prev = f[pos - 1];
    let moved = BlockView { order: order_after_last(prev), ..f[pos] };
    f.remove(pos).update(pos - 1, BlockView { children: prev.children.push(moved), ..prev })
}

/// Indenting the first block that carries `uid` (found as [`remove`] finds
/// it): the new list, the uid of the new parent and the new order. `None` where
/// no block carries `uid`, where the block found is the first of its list, and
/// where the new order would pass [`max_order`].
pub open spec fn indent(f: Seq<BlockView>, uid: Seq<char>) -> Option<(Seq<BlockView>, Seq<char>, int)>
    decreases f, 1int,
{
    match sibling_pos(f, uid) {
        Some(pos) => if pos == 0 || order_after_last(f[pos - 1]) > max_order() {
            None
        } else {
            Some((indent_at(f, pos), f[pos - 1].uid, order_after_last(f[pos - 1])))
        },
        None => indent_below(f, uid),
    }
}

/// [`indent`] where none of the blocks of `f` themselves carries `uid`: the
/// first block whose sub-blocks can be indented in decides.
pub open spec fn indent_below(f: Seq<BlockView>, uid: Seq<char>) -> Option<
    (Seq<BlockView>, Seq<char>, int),
>
    decreases f, 0int,
{
    if f.len() == 0 {
        None
    } else {
        match indent(f[0].children, uid) {
            Some((c, p, o)) => Some((f.update(0, BlockView { children: c, ..f[0] }), p, o)),
            None => match indent_below(f.skip(1), uid) {
                Some((r, p, o)) => Some((seq![f[0]] + r, p, o)),
                None => None,
            },
        }
    }
}

/// Position among `f` of the first block that has a block carrying `uid`
/// among its own sub-blocks.
pub open spec fn parent_pos(f: Seq<BlockView>, uid: Seq<char>) -> Option<int>
    decreases f.len(),
{
    if f.len() == 0 {
        None
    } else if sibling_pos(f[0].children, uid) is Some {
        Some(0)
    } else {
        match parent_pos(f.skip(1), uid) {
            Some(k) => Some(k + 1),
            None => None,
        }
    }
}

/// `f` after sub-block `c` of the block at `p` has become the next sibling of
/// that block.
pub open spec fn dedent_at(f: Seq<BlockView>, p: int, c: int) -> Seq<BlockView> {
    let parent = f[p];
    let moved = BlockView { order: parent.order + 1, ..parent.children[c] };
    f.update(p, BlockView { children: parent.children.remove(c), ..parent }).insert(p + 1, moved)
}

/// Dedenting the first block that carries `uid`: the new list, the uid of the
/// new parent and the new order; `owner` is the parent of the blocks of `f`
/// themselves. The blocks of `f` are asked in turn whether one of their own
/// sub-blocks carries `uid`, before any greater depth is searched. `None`
/// where no block below those of `f` carries `uid`, and where the new order
/// would pass [`max_order`].
pub open spec fn dedent(f: Seq<BlockView>, owner: Seq<char>, uid: Seq<char>) -> Option<
    (Seq<BlockView>, Seq<char>, int),
>
    decreases f, 1int,
{
    match parent_pos(f, uid) {
        Some(p) => if f[p].order + 1 > max_order() {
            None
        } else {
            Some((dedent_at(f, p, sibling_pos(f[p].children, uid).unwrap()), owner, f[p].order + 1))
        },
        None => dedent_below(f, uid),
    }
}

/// [`dedent`] where no block of `f` has a block carrying `uid` among its own
/// sub-blocks: the first block below which the dedent can be done decides.
pub open spec fn dedent_below(f: Seq<BlockView>, uid: Seq<char>) -> Option<
    (Seq<BlockView>, Seq<char>, int),
>
    decreases f, 0int,
{
    if f.len() == 0 {
        None
    } else {
        match dedent(f[0].children, f[0].uid, uid) {
            Some((c, p, o)) => Some((f.update(0, BlockView { children: c, ..f[0] }), p, o)),
            None => match dedent_below(f.skip(1), uid) {
                Some((r, p, o)) => Some((seq![f[0]] + r, p, o)),
                None => None,
            },
        }
    }
}

/// `r` with the blocks `pre` put before its list.
pub open spec fn after_prefix(
    pre: Seq<BlockView>,
    r: Option<(Seq<BlockView>, Seq<char>, int)>,
) -> Option<(Seq<BlockView>, Seq<char>, int)> {
    match r {
        Some((rest, p, o)) => Some((pre + rest, p, o)),
        None => None,
    }
}

/// `o` moved on by `d` places.
pub open spec fn moved_on(o: Option<int>, d: int) -> Option<int> {
    match o {
        Some(k) => Some(k + d),
        None => None,
    }
}

} // verus!

use crate::maps::lookup;
use crate::state::{LinkedRefItemView, LinkedRefsView};
use crate::tree::{
    contains, dedent, find, indent, index_of, insert_pos, parent_info, remove, row_at,
    update_first, visible_count, with_child, RowView,
};
use crate::types::{BlockView, DailyNoteView, LinkedRefGroupView};
use vstd::prelude::*;

verus! {

/// Rows that the groups of a section of references occupy: one for the header
/// of each group and one for each of its blocks.
pub open spec fn group_rows(groups: Seq<LinkedRefGroupView>) -> nat
    decreases groups.len(),
{
    if groups.len() == 0 {
        0
    } else {
        1 + groups[0].blocks.len() + group_rows(groups.skip(1))
    }
}

/// Rows that a section of references occupies: none where it has no group,
/// its header alone where it is collapsed, and else its header and its groups.
pub open spec fn section_rows(lr: LinkedRefsView) -> nat {
    if lr.groups.len() == 0 {
        0
    } else if lr.collapsed {
        1
    } else {
        1 + group_rows(lr.groups)
    }
}

/// What row `t` of the groups of a section shows.
pub open spec fn item_in_groups(groups: Seq<LinkedRefGroupView>, t: nat) -> Option<LinkedRefItemView>
    decreases groups.len(),
{
    if groups.len() == 0 {
        None
    } else if t == 0 {
        Some(LinkedRefItemView::GroupHeader(groups[0].page_title))
    } else if t - 1 < groups[0].blocks.len() {
        Some(LinkedRefItemView::Block(groups[0].blocks[t - 1]))
    } else {
        item_in_groups(groups.skip(1), (t - 1 - groups[0].blocks.len()) as nat)
    }
}

/// What row `offset` of a section of references shows.
pub open spec fn section_item(lr: LinkedRefsView, offset: nat) -> Option<LinkedRefItemView> {
    if lr.groups.len() == 0 {
        None
    } else if offset == 0 {
        Some(LinkedRefItemView::SectionHeader)
    } else if lr.collapsed {
        None
    } else {
        item_in_groups(lr.groups, (offset - 1) as nat)
    }
}

/// Rows of the section of references that is held for the page `title`.
pub open spec fn refs_rows(lr: Seq<(Seq<char>, LinkedRefsView)>, title: Seq<char>) -> nat {
    match lookup(lr, title) {
        Some(s) => section_rows(s),
        None => 0,
    }
}

/// Rows that a page occupies: its visible blocks, then its references.
pub open spec fn day_rows(d: DailyNoteView, lr: Seq<(Seq<char>, LinkedRefsView)>) -> nat {
    visible_count(d.blocks) + refs_rows(lr, d.title)
}

/// Visible blocks of all pages.
pub open spec fn flat_count(days: Seq<DailyNoteView>) -> nat
    decreases days.len(),
{
    if days.len() == 0 {
        0
    } else {
        visible_count(days[0].blocks) + flat_count(days.skip(1))
    }
}

/// Rows of all pages: the positions that the cursor can take.
pub open spec fn total_rows(days: Seq<DailyNoteView>, lr: Seq<(Seq<char>, LinkedRefsView)>) -> nat
    decreases days.len(),
{
    if days.len() == 0 {
        0
    } else {
        day_rows(days[0], lr) + total_rows(days.skip(1), lr)
    }
}

/// The row of the first visible block that carries `uid`, among the rows of
/// all pages.
pub open spec fn index_in_days(
    days: Seq<DailyNoteView>,
    lr: Seq<(Seq<char>, LinkedRefsView)>,
    uid: Seq<char>,
) -> Option<nat>
    decreases days.len(),
{
    if days.len() == 0 {
        None
    } else {
        match index_of(days[0].blocks, uid) {
            Some(k) => Some(k),
            None => match index_in_days(days.skip(1), lr, uid) {
                Some(k) => Some(day_rows(days[0], lr) + k),
                None => None,
            },
        }
    }
}

/// The block on row `t` among the rows of all pages; none where the row shows
/// a reference or lies past the last row.
pub open spec fn row_in_days(days: Seq<DailyNoteView>, lr: Seq<(Seq<char>, LinkedRefsView)>, t: nat) -> Option<
    RowView,
>
    decreases days.len(),
{
    if days.len() == 0 {
        None
    } else if t < visible_count(days[0].blocks) {
        row_at(days[0].blocks, days[0].uid, 0, t)
    } else if t < day_rows(days[0], lr) {
        None
    } else {
        row_in_days(days.skip(1), lr, (t - day_rows(days[0], lr)) as nat)
    }
}

/// What row `t` among the rows of all pages shows of a section of references;
/// none where the row shows a block or lies past the last row.
pub open spec fn ref_item_in_days(
    days: Seq<DailyNoteView>,
    lr: Seq<(Seq<char>, LinkedRefsView)>,
    t: nat,
) -> Option<LinkedRefItemView>
    decreases days.len(),
{
    if days.len() == 0 {
        None
    } else if t < visible_count(days[0].blocks) {
        None
    } else if t < day_rows(days[0], lr) {
        section_item(lookup(lr, days[0].title).unwrap(), (t - visible_count(days[0].blocks)) as nat)
    } else {
        ref_item_in_days(days.skip(1), lr, (t - day_rows(days[0], lr)) as nat)
    }
}

/// Title of the first page that has references and whose rows end after row
/// `t`.
pub open spec fn ref_day_in_days(days: Seq<DailyNoteView>, lr: Seq<(Seq<char>, LinkedRefsView)>, t: int) -> Option<
    Seq<char>,
>
    decreases days.len(),
{
    if days.len() == 0 {
        None
    } else if refs_rows(lr, days[0].title) > 0 && t < day_rows(days[0], lr) {
        Some(days[0].title)
    } else {
        ref_day_in_days(days.skip(1), lr, t - day_rows(days[0], lr))
    }
}

/// Whether page `i` is the first of `days` of which `ok` holds.
pub open spec fn is_first(days: Seq<DailyNoteView>, ok: spec_fn(DailyNoteView) -> bool, i: int) -> bool {
    &&& 0 <= i < days.len()
    &&& ok(days[i])
    &&& forall|j: int| 0 <= j < i ==> !#[trigger] ok(days[j])
}

/// The first page of `days` of which `ok` holds.
pub open spec fn first_day(days: Seq<DailyNoteView>, ok: spec_fn(DailyNoteView) -> bool) -> Option<int> {
    if exists|i: int| is_first(days, ok, i) {
        Some(choose|i: int| is_first(days, ok, i))
    } else {
        None
    }
}

pub proof fn lemma_first_day(days: Seq<DailyNoteView>, ok: spec_fn(DailyNoteView) -> bool, i: int)
    requires
        is_first(days, ok, i),
    ensures
        first_day(days, ok) == Some(i),
{
    let c = choose|c: int| is_first(days, ok, c);
    assert(is_first(days, ok, c));
    if c < i {
        assert(!ok(days[c]));
    }
    if i < c {
        assert(!ok(days[i]));
    }
}

pub proof fn lemma_no_first_day(days: Seq<DailyNoteView>, ok: spec_fn(DailyNoteView) -> bool)
    requires
        forall|j: int| 0 <= j < days.len() ==> !#[trigger] ok(days[j]),
    ensures
        first_day(days, ok) is None,
{
}

/// What [`first_day`] says of the page it gives.
pub proof fn lemma_first_day_is(days: Seq<DailyNoteView>, ok: spec_fn(DailyNoteView) -> bool)
    ensures
        first_day(days, ok) matches Some(i) ==> is_first(days, ok, i),
        first_day(days, ok) is None ==> forall|j: int| 0 <= j < days.len() ==> !#[trigger] ok(days[j]),
{
    if first_day(days, ok) is None {
        assert forall|j: int| 0 <= j < days.len() implies !#[trigger] ok(days[j]) by {
            if ok(days[j]) {
                lemma_least(days, ok, j);
            }
        }
    }
}

/// Where `ok` holds of some page, it holds of a first one.
pub proof fn lemma_least(days: Seq<DailyNoteView>, ok: spec_fn(DailyNoteView) -> bool, j: int)
    requires
        0 <= j < days.len(),
        ok(days[j]),
    ensures
        exists|i: int| is_first(days, ok, i),
    decreases j,
{
    if exists|k: int| 0 <= k < j && ok(days[k]) {
        let k = choose|k: int| 0 <= k < j && ok(days[k]);
        lemma_least(days, ok, k);
    } else {
        assert(is_first(days, ok, j));
    }
}

/// Holds of the pages that have a block carrying `uid`.
pub open spec fn holds(uid: Seq<char>) -> spec_fn(DailyNoteView) -> bool {
    |d: DailyNoteView| contains(d.blocks, uid)
}

/// Holds of the pages on which the block carrying `uid` can be indented.
pub open spec fn can_indent(uid: Seq<char>) -> spec_fn(DailyNoteView) -> bool {
    |d: DailyNoteView| indent(d.blocks, uid) is Some
}

/// Holds of the pages on which the block carrying `uid` can be dedented.
pub open spec fn can_dedent(uid: Seq<char>) -> spec_fn(DailyNoteView) -> bool {
    |d: DailyNoteView| dedent(d.blocks, d.uid, uid) is Some
}

/// Holds of the pages that are, or have a block that is, the parent `parent`.
pub open spec fn takes(parent: Seq<char>) -> spec_fn(DailyNoteView) -> bool {
    |d: DailyNoteView| d.uid == parent || contains(d.blocks, parent)
}

/// The page `d` with `blocks` in place of its own.
pub open spec fn with_blocks(d: DailyNoteView, blocks: Seq<BlockView>) -> DailyNoteView {
    DailyNoteView { blocks: blocks, ..d }
}

/// Whether some block of some page carries `uid`.
pub open spec fn doc_contains(days: Seq<DailyNoteView>, uid: Seq<char>) -> bool {
    first_day(days, holds(uid)) is Some
}

/// The first block that carries `uid`: that of the first page that has one.
pub open spec fn doc_find(days: Seq<DailyNoteView>, uid: Seq<char>) -> Option<BlockView> {
    match first_day(days, holds(uid)) {
        Some(i) => find(days[i].blocks, uid),
        None => None,
    }
}

/// Parent and order of the first block that carries `uid`. The parent of a
/// top-level block is its page.
pub open spec fn doc_parent_info(days: Seq<DailyNoteView>, uid: Seq<char>) -> Option<(Seq<char>, int)> {
    match first_day(days, holds(uid)) {
        Some(i) => parent_info(days[i].blocks, days[i].uid, uid),
        None => None,
    }
}

/// `days` with `g` applied to the first block that carries `uid`.
pub open spec fn doc_update(
    days: Seq<DailyNoteView>,
    uid: Seq<char>,
    g: spec_fn(BlockView) -> BlockView,
) -> Seq<DailyNoteView> {
    match first_day(days, holds(uid)) {
        Some(i) => days.update(i, with_blocks(days[i], update_first(days[i].blocks, uid, g))),
        None => days,
    }
}

/// `days` without the first block that carries `uid`: the one that
/// [`remove`] takes from the first page that has one.
pub open spec fn doc_remove(days: Seq<DailyNoteView>, uid: Seq<char>) -> Seq<DailyNoteView> {
    match first_day(days, holds(uid)) {
        Some(i) => days.update(i, with_blocks(days[i], remove(days[i].blocks, uid))),
        None => days,
    }
}

/// Indenting the block that carries `uid`, on the first page where that can
/// be done: the new pages, the uid of the new parent and the new order.
pub open spec fn doc_indent(days: Seq<DailyNoteView>, uid: Seq<char>) -> Option<
    (Seq<DailyNoteView>, Seq<char>, int),
> {
    match first_day(days, can_indent(uid)) {
        Some(i) => {
            let r = indent(days[i].blocks, uid).unwrap();
            Some((days.update(i, with_blocks(days[i], r.0)), r.1, r.2))
        },
        None => None,
    }
}

/// Dedenting the block that carries `uid`, on the first page where that can
/// be done: the new pages, the uid of the new parent and the new order.
pub open spec fn doc_dedent(days: Seq<DailyNoteView>, uid: Seq<char>) -> Option<
    (Seq<DailyNoteView>, Seq<char>, int),
> {
    match first_day(days, can_dedent(uid)) {
        Some(i) => {
            let r = dedent(days[i].blocks, days[i].uid, uid).unwrap();
            Some((days.update(i, with_blocks(days[i], r.0)), r.1, r.2))
        },
        None => None,
    }
}

/// Whether `parent` is a page, or a block of a page.
pub open spec fn doc_has_parent(days: Seq<DailyNoteView>, parent: Seq<char>) -> bool {
    first_day(days, takes(parent)) is Some
}

/// `days` with `block` put below `parent`, before the first of the blocks
/// there whose order is at least `order`. The first page that is `parent`, or
/// has a block that is, receives it.
pub open spec fn doc_insert(
    days: Seq<DailyNoteView>,
    parent: Seq<char>,
    order: int,
    block: BlockView,
) -> Seq<DailyNoteView> {
    match first_day(days, takes(parent)) {
        Some(i) => if days[i].uid == parent {
            days.update(
                i,
                with_blocks(days[i], days[i].blocks.insert(insert_pos(days[i].blocks, order), block)),
            )
        } else {
            days.update(
                i,
                with_blocks(days[i], update_first(days[i].blocks, parent, with_child(order, block))),
            )
        },
        None => days,
    }
}

/// `days` after the first block that carries `uid` has been taken out and
/// put back below `parent` with the order `order`. Where `parent` is not
/// found once the block is out, the block is gone.
pub open spec fn doc_move(days: Seq<DailyNoteView>, uid: Seq<char>, parent: Seq<char>, order: int) -> Seq<
    DailyNoteView,
> {
    match doc_find(days, uid) {
        Some(b) => doc_insert(doc_remove(days, uid), parent, order, BlockView { order: order, ..b }),
        None => days,
    }
}

/// Whether [`doc_move`] finds both the block and its new parent.
pub open spec fn doc_can_move(days: Seq<DailyNoteView>, uid: Seq<char>, parent: Seq<char>) -> bool {
    doc_find(days, uid) is Some && doc_has_parent(doc_remove(days, uid), parent)
}

} // verus!

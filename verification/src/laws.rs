use crate::actions::{acted, created, creating, nav_back, nav_forward, placeholder};
use crate::blocks::{lemma_count_step, lemma_index_bound};
use crate::bounds::lemma_parent_pos_range;
use crate::date::Date;
use crate::doc::{
    can_dedent, can_indent, day_rows, doc_dedent, doc_find, doc_has_parent, doc_indent, doc_insert,
    doc_move, doc_parent_info, doc_remove, doc_update, first_day, flat_count, group_rows, holds,
    index_in_days, is_first, item_in_groups, lemma_first_day, lemma_first_day_is, ref_item_in_days,
    row_in_days, takes, total_rows, with_blocks,
};
use crate::edit_buffer::BufferView;
use crate::input::{dedented, deleted, edited_block, finalized, indented, with_buffer};
use crate::maps::lookup;
use crate::nav::{history_cap, pushed, saved, snapshot_of};
use crate::order::{pages_ranked, pages_strictly_ranked, ranked, same_ranks, strictly_ranked};
use crate::preset::Action;
use crate::reconcile::{daily_loaded, date_pos, page_loaded, taken_in};
use crate::state::{AppStateView, InputView, LinkedRefsView, UndoView};
use crate::tree::{
    contains, dedent, dedent_at, dedent_below, find, indent, indent_at, indent_below, index_of,
    insert_pos, max_order, order_after_last, parent_info, parent_pos, remove, remove_below, row_at,
    rows, sibling_pos, update_first, visible_count, with_child, with_open, with_order, with_text,
};
use crate::types::{BlockView, DailyNoteView, LinkedRefGroupView};
use crate::undo::{clamped, current_text, redone, undo_outcome, undone};
use vstd::prelude::*;

verus! {

/// The row on which a block is found shows that block.
pub proof fn lemma_row_of_index(f: Seq<BlockView>, parent: Seq<char>, depth: nat, uid: Seq<char>)
    ensures
        index_of(f, uid) matches Some(k) ==> (row_at(f, parent, depth, k) matches Some(r)
            && r.block_uid == uid),
    decreases f,
{
    if f.len() > 0 && f[0].uid != uid {
        lemma_count_step(f, 0);
        lemma_index_bound(f[0].children, uid);
        lemma_row_of_index(f[0].children, f[0].uid, depth + 1, uid);
        lemma_row_of_index(f.skip(1), parent, depth, uid);
    }
}

/// The row on which a block is found shows that block, and the block is
/// found again on that row: for every visible block, the cursor and the
/// place in the tree answer to each other.
pub proof fn law_index_round_trip(
    days: Seq<DailyNoteView>,
    lr: Seq<(Seq<char>, LinkedRefsView)>,
    uid: Seq<char>,
)
    ensures
        index_in_days(days, lr, uid) matches Some(k) ==> (row_in_days(days, lr, k) matches Some(r)
            && r.block_uid == uid && index_in_days(days, lr, r.block_uid) == Some(k)),
    decreases days.len(),
{
    if days.len() > 0 {
        lemma_index_bound(days[0].blocks, uid);
        lemma_row_of_index(days[0].blocks, days[0].uid, 0, uid);
        law_index_round_trip(days.skip(1), lr, uid);
    }
}

/// Whether the first block that carries `uid` (in the order of [`find`]) is
/// shown: every block above it is open.
pub open spec fn shown(f: Seq<BlockView>, uid: Seq<char>) -> bool
    decreases f,
{
    if f.len() == 0 {
        false
    } else if f[0].uid == uid {
        true
    } else if contains(f[0].children, uid) {
        f[0].open && shown(f[0].children, uid)
    } else {
        shown(f.skip(1), uid)
    }
}

/// Opening or closing a block that is shown changes the rows by those of its
/// sub-blocks.
pub proof fn lemma_open_rows(f: Seq<BlockView>, uid: Seq<char>, open: bool)
    requires
        shown(f, uid),
    ensures
        find(f, uid) is Some,
        visible_count(update_first(f, uid, with_open(open))) + rows(find(f, uid).unwrap())
            == visible_count(f) + rows(BlockView { open: open, ..find(f, uid).unwrap() }),
    decreases f,
{
    let g = with_open(open);
    lemma_count_step(f, 0);
    if f[0].uid == uid {
        let after = f.update(0, g(f[0]));
        lemma_count_step(after, 0);
        assert(after.skip(1) =~= f.skip(1));
    } else if contains(f[0].children, uid) {
        lemma_open_rows(f[0].children, uid, open);
        let b = BlockView { children: update_first(f[0].children, uid, g), ..f[0] };
        let after = f.update(0, b);
        lemma_count_step(after, 0);
        assert(after.skip(1) =~= f.skip(1));
    } else {
        lemma_open_rows(f.skip(1), uid, open);
        let after = seq![f[0]] + update_first(f.skip(1), uid, g);
        lemma_count_step(after, 0);
        assert(after.skip(1) =~= update_first(f.skip(1), uid, g));
    }
}

/// Closing an open block and opening it again gives back what was there.
pub proof fn lemma_close_open(f: Seq<BlockView>, uid: Seq<char>)
    requires
        find(f, uid) matches Some(b) && b.open,
    ensures
        update_first(update_first(f, uid, with_open(false)), uid, with_open(true)) == f,
        contains(update_first(f, uid, with_open(false)), uid),
    decreases f,
{
    let close = with_open(false);
    let open = with_open(true);
    if f[0].uid == uid {
        let mid = f.update(0, close(f[0]));
        assert(mid.update(0, open(mid[0])) =~= f);
    } else if contains(f[0].children, uid) {
        lemma_close_open(f[0].children, uid);
        let mid = f.update(0, BlockView { children: update_first(f[0].children, uid, close), ..f[0] });
        assert(mid.update(
            0,
            BlockView { children: update_first(mid[0].children, uid, open), ..mid[0] },
        ) =~= f);
    } else {
        lemma_close_open(f.skip(1), uid);
        let mid = seq![f[0]] + update_first(f.skip(1), uid, close);
        assert(mid.skip(1) =~= update_first(f.skip(1), uid, close));
        assert(seq![mid[0]] + f.skip(1) =~= f);
    }
}

/// The rows of all pages after the blocks of page `i` have been replaced.
pub proof fn lemma_total_rows_update(
    days: Seq<DailyNoteView>,
    lr: Seq<(Seq<char>, LinkedRefsView)>,
    i: int,
    blocks: Seq<BlockView>,
)
    requires
        0 <= i < days.len(),
    ensures
        total_rows(days.update(i, with_blocks(days[i], blocks)), lr) + visible_count(days[i].blocks)
            == total_rows(days, lr) + visible_count(blocks),
    decreases i,
{
    let after = days.update(i, with_blocks(days[i], blocks));
    if i == 0 {
        assert(after.skip(1) =~= days.skip(1));
    } else {
        lemma_total_rows_update(days.skip(1), lr, i - 1, blocks);
        assert(after.skip(1) =~= days.skip(1).update(
            i - 1,
            with_blocks(days.skip(1)[i - 1], blocks),
        ));
    }
}

/// Whether the first block of the pages that carries `uid` is shown and
/// open.
pub open spec fn shown_open(days: Seq<DailyNoteView>, uid: Seq<char>) -> bool {
    match first_day(days, holds(uid)) {
        Some(i) => shown(days[i].blocks, uid) && find(days[i].blocks, uid).unwrap().open,
        None => false,
    }
}

/// Rows that the sub-blocks of the first block carrying `uid` occupy.
pub open spec fn rows_below(days: Seq<DailyNoteView>, uid: Seq<char>) -> nat {
    match first_day(days, holds(uid)) {
        Some(i) => match find(days[i].blocks, uid) {
            Some(b) => visible_count(b.children),
            None => 0,
        },
        None => 0,
    }
}

/// Collapsing a block that is shown and open takes away exactly the rows of
/// what is below it, and expanding it again brings back what was there.
pub proof fn law_collapse_expand(
    days: Seq<DailyNoteView>,
    lr: Seq<(Seq<char>, LinkedRefsView)>,
    uid: Seq<char>,
)
    requires
        shown_open(days, uid),
    ensures
        total_rows(doc_update(days, uid, with_open(false)), lr) + rows_below(days, uid)
            == total_rows(days, lr),
        doc_update(doc_update(days, uid, with_open(false)), uid, with_open(true)) == days,
        total_rows(doc_update(doc_update(days, uid, with_open(false)), uid, with_open(true)), lr)
            == total_rows(days, lr),
{
    lemma_first_day_is(days, holds(uid));
    let i = first_day(days, holds(uid)).unwrap();
    let f = days[i].blocks;
    lemma_open_rows(f, uid, false);
    lemma_close_open(f, uid);
    let closed = update_first(f, uid, with_open(false));
    lemma_total_rows_update(days, lr, i, closed);
    let mid = days.update(i, with_blocks(days[i], closed));
    assert(is_first(mid, holds(uid), i)) by {
        assert(holds(uid)(mid[i]));
        assert forall|j: int| 0 <= j < i implies !#[trigger] holds(uid)(mid[j]) by {
            assert(mid[j] == days[j]);
            assert(!holds(uid)(days[j]));
        }
    }
    lemma_first_day(mid, holds(uid), i);
    assert(mid.update(i, with_blocks(mid[i], f)) =~= days);
}

/// Where no row is shown, no row shows anything.
pub proof fn lemma_no_rows(days: Seq<DailyNoteView>, lr: Seq<(Seq<char>, LinkedRefsView)>, t: nat)
    requires
        total_rows(days, lr) == 0,
    ensures
        row_in_days(days, lr, t) is None,
        ref_item_in_days(days, lr, t) is None,
        flat_count(days) == 0,
    decreases days.len(),
{
    if days.len() > 0 {
        lemma_no_rows(days.skip(1), lr, t);
    }
}

/// Deleting the one block of the first page and then creating a block
/// leaves that page with exactly one block, the new one: it is empty, has
/// the order 0 and the page as its parent, and the cursor stands on it, on
/// row 0. This is said of a state in which nothing else shows a row.
pub proof fn law_delete_last_then_create(s: AppStateView, uid: Seq<char>)
    requires
        s.days.len() >= 1,
        s.days[0].blocks.len() == 1,
        s.selected_block == 0,
        total_rows(s.days.update(0, with_blocks(s.days[0], Seq::empty())), s.linked_refs) == 0,
    ensures
        created(deleted(s), uid).days[0].blocks == seq![placeholder(uid, 0)],
        created(deleted(s), uid).selected_block == 0,
        created(deleted(s), uid).input_mode == creating(uid, s.days[0].uid, 0),
{
    let blocks = s.days[0].blocks;
    let b = blocks[0];
    lemma_count_step(blocks, 0);
    assert(holds(b.uid)(s.days[0]));
    lemma_first_day(s.days, holds(b.uid), 0);
    assert(blocks.remove(0) =~= Seq::<BlockView>::empty());
    let days1 = s.days.update(0, with_blocks(s.days[0], Seq::empty()));
    assert(doc_remove(s.days, b.uid) == days1);
    lemma_no_rows(days1, s.linked_refs, 0);
    let s1 = deleted(s);
    assert(s1.days == days1);
    assert(s1.selected_block == 0);
    assert(s1.linked_refs == s.linked_refs);
    assert(days1[0].blocks.push(placeholder(uid, 0)) =~= seq![placeholder(uid, 0)]);
}

/// Number of blocks of `f`, at every depth, that carry `uid`.
pub open spec fn occurrences(f: Seq<BlockView>, uid: Seq<char>) -> nat
    decreases f,
{
    if f.len() == 0 {
        0
    } else {
        (if f[0].uid == uid {
            1nat
        } else {
            0nat
        }) + occurrences(f[0].children, uid) + occurrences(f.skip(1), uid)
    }
}

/// Number of blocks of all pages that carry `uid`.
pub open spec fn occurrences_in_days(days: Seq<DailyNoteView>, uid: Seq<char>) -> nat
    decreases days.len(),
{
    if days.len() == 0 {
        0
    } else {
        occurrences(days[0].blocks, uid) + occurrences_in_days(days.skip(1), uid)
    }
}

/// A uid occurs exactly where a block carries it.
pub proof fn lemma_occurs(f: Seq<BlockView>, uid: Seq<char>)
    ensures
        occurrences(f, uid) == 0 <==> !contains(f, uid),
    decreases f,
{
    if f.len() > 0 {
        lemma_occurs(f[0].children, uid);
        lemma_occurs(f.skip(1), uid);
    }
}

/// The block that a row shows is a block of the list.
pub proof fn lemma_row_contains(f: Seq<BlockView>, parent: Seq<char>, depth: nat, t: nat)
    ensures
        row_at(f, parent, depth, t) matches Some(r) ==> contains(f, r.block_uid),
    decreases f,
{
    if f.len() > 0 && t != 0 {
        if t < rows(f[0]) {
            lemma_row_contains(f[0].children, f[0].uid, depth + 1, (t - 1) as nat);
        } else {
            lemma_row_contains(f.skip(1), parent, depth, (t - rows(f[0])) as nat);
        }
    }
}

/// Where a uid occurs once, the row that shows it shows the block that is
/// found by it.
pub proof fn lemma_row_is_found(f: Seq<BlockView>, parent: Seq<char>, depth: nat, t: nat)
    requires
        row_at(f, parent, depth, t) is Some,
        occurrences(f, row_at(f, parent, depth, t).unwrap().block_uid) == 1,
    ensures
        find(f, row_at(f, parent, depth, t).unwrap().block_uid) matches Some(b) && b.text == row_at(
            f,
            parent,
            depth,
            t,
        ).unwrap().text,
    decreases f,
{
    let r = row_at(f, parent, depth, t).unwrap();
    let uid = r.block_uid;
    if t != 0 {
        lemma_occurs(f[0].children, uid);
        lemma_occurs(f.skip(1), uid);
        if t < rows(f[0]) {
            lemma_row_contains(f[0].children, f[0].uid, depth + 1, (t - 1) as nat);
            lemma_row_is_found(f[0].children, f[0].uid, depth + 1, (t - 1) as nat);
        } else {
            lemma_row_contains(f.skip(1), parent, depth, (t - rows(f[0])) as nat);
            lemma_row_is_found(f.skip(1), parent, depth, (t - rows(f[0])) as nat);
        }
    }
}

/// Where no block of any page carries `uid`.
pub proof fn lemma_absent_in_days(days: Seq<DailyNoteView>, uid: Seq<char>)
    requires
        occurrences_in_days(days, uid) == 0,
    ensures
        forall|k: int| 0 <= k < days.len() ==> !#[trigger] holds(uid)(days[k]),
    decreases days.len(),
{
    if days.len() > 0 {
        lemma_occurs(days[0].blocks, uid);
        lemma_absent_in_days(days.skip(1), uid);
        assert forall|k: int| 0 <= k < days.len() implies !#[trigger] holds(uid)(days[k]) by {
            if k > 0 {
                assert(days.skip(1)[k - 1] == days[k]);
                assert(!holds(uid)(days.skip(1)[k - 1]));
            }
        }
    }
}

/// Where a uid occurs once among all pages, the page that has it is the
/// only one, and has it once.
pub proof fn lemma_single_day(days: Seq<DailyNoteView>, uid: Seq<char>, j: int)
    requires
        occurrences_in_days(days, uid) == 1,
        0 <= j < days.len(),
        contains(days[j].blocks, uid),
    ensures
        first_day(days, holds(uid)) == Some(j),
        occurrences(days[j].blocks, uid) == 1,
        forall|k: int| 0 <= k < days.len() && k != j ==> !#[trigger] holds(uid)(days[k]),
    decreases days.len(),
{
    lemma_occurs(days[0].blocks, uid);
    if j == 0 {
        lemma_absent_in_days(days.skip(1), uid);
        assert forall|k: int| 0 <= k < days.len() && k != j implies !#[trigger] holds(uid)(
            days[k],
        ) by {
            assert(days.skip(1)[k - 1] == days[k]);
            assert(!holds(uid)(days.skip(1)[k - 1]));
        }
    } else {
        assert(days.skip(1)[j - 1] == days[j]);
        lemma_occurs(days[j].blocks, uid);
        lemma_occurs_day(days.skip(1), uid, j - 1);
        lemma_single_day(days.skip(1), uid, j - 1);
        assert forall|k: int| 0 <= k < days.len() && k != j implies !#[trigger] holds(uid)(
            days[k],
        ) by {
            if k > 0 {
                assert(days.skip(1)[k - 1] == days[k]);
                assert(!holds(uid)(days.skip(1)[k - 1]));
            }
        }
    }
    assert(holds(uid)(days[j]));
    lemma_first_day(days, holds(uid), j);
}

/// A page has no more of a uid than all pages together.
pub proof fn lemma_occurs_day(days: Seq<DailyNoteView>, uid: Seq<char>, j: int)
    requires
        0 <= j < days.len(),
    ensures
        occurrences(days[j].blocks, uid) <= occurrences_in_days(days, uid),
    decreases j,
{
    if j > 0 {
        assert(days.skip(1)[j - 1] == days[j]);
        lemma_occurs_day(days.skip(1), uid, j - 1);
    }
}

/// The page that shows row `t`, and the row within that page.
pub proof fn lemma_row_day(days: Seq<DailyNoteView>, lr: Seq<(Seq<char>, LinkedRefsView)>, t: nat) -> (r:
    (int, nat))
    requires
        row_in_days(days, lr, t) is Some,
    ensures
        0 <= r.0 < days.len(),
        row_at(days[r.0].blocks, days[r.0].uid, 0, r.1) == row_in_days(days, lr, t),
    decreases days.len(),
{
    if t < visible_count(days[0].blocks) {
        (0, t)
    } else {
        let r = lemma_row_day(days.skip(1), lr, (t - day_rows(days[0], lr)) as nat);
        assert(days.skip(1)[r.0] == days[r.0 + 1]);
        (r.0 + 1, r.1)
    }
}

/// Where `uid` occurs once, the text that is taken as the present text of
/// its block is the text of the block found by it.
pub proof fn lemma_current_text(
    days: Seq<DailyNoteView>,
    lr: Seq<(Seq<char>, LinkedRefsView)>,
    selected: nat,
    uid: Seq<char>,
)
    requires
        occurrences_in_days(days, uid) == 1,
        doc_find(days, uid) is Some,
    ensures
        current_text(days, lr, selected, uid) == doc_find(days, uid).unwrap().text,
{
    match row_in_days(days, lr, selected) {
        Some(row) => {
            if row.block_uid == uid {
                let r = lemma_row_day(days, lr, selected);
                lemma_row_contains(days[r.0].blocks, days[r.0].uid, 0, r.1);
                lemma_single_day(days, uid, r.0);
                lemma_row_is_found(days[r.0].blocks, days[r.0].uid, 0, r.1);
            }
        },
        None => {},
    }
}

/// A change of the text of a block keeps the uids where they are, gives the
/// block the text, and is taken back by giving the block its old text.
pub proof fn lemma_text_update(f: Seq<BlockView>, uid: Seq<char>, text: Seq<char>, other: Seq<char>)
    ensures
        occurrences(update_first(f, uid, with_text(text)), other) == occurrences(f, other),
        contains(update_first(f, uid, with_text(text)), other) == contains(f, other),
        find(f, uid) matches Some(b) ==> find(update_first(f, uid, with_text(text)), uid) == Some(
            BlockView { text: text, ..b },
        ) && update_first(update_first(f, uid, with_text(text)), uid, with_text(b.text)) == f,
    decreases f,
{
    let g = with_text(text);
    if f.len() > 0 {
        lemma_text_update(f[0].children, uid, text, other);
        lemma_text_update(f[0].children, uid, text, uid);
        lemma_text_update(f.skip(1), uid, text, other);
        lemma_text_update(f.skip(1), uid, text, uid);
        let after = update_first(f, uid, g);
        if f[0].uid == uid {
            assert(after.skip(1) =~= f.skip(1));
            let back = with_text(f[0].text);
            assert(after.update(0, back(after[0])) =~= f);
        } else if contains(f[0].children, uid) {
            assert(after.skip(1) =~= f.skip(1));
            let b = find(f, uid).unwrap();
            let back = with_text(b.text);
            assert(after.update(
                0,
                BlockView { children: update_first(after[0].children, uid, back), ..after[0] },
            ) =~= f);
        } else {
            assert(after.skip(1) =~= update_first(f.skip(1), uid, g));
            assert(after[0] == f[0]);
            match find(f, uid) {
                Some(b) => {
                    assert(seq![after[0]] + f.skip(1) =~= f);
                },
                None => {},
            }
        }
        lemma_occurs(after, other);
        lemma_occurs(f, other);
    }
}

/// [`occurrences_in_days`] after the blocks of page `i` have been replaced.
pub proof fn lemma_occurrences_update(
    days: Seq<DailyNoteView>,
    uid: Seq<char>,
    i: int,
    blocks: Seq<BlockView>,
)
    requires
        0 <= i < days.len(),
    ensures
        occurrences_in_days(days.update(i, with_blocks(days[i], blocks)), uid) + occurrences(
            days[i].blocks,
            uid,
        ) == occurrences_in_days(days, uid) + occurrences(blocks, uid),
    decreases i,
{
    let after = days.update(i, with_blocks(days[i], blocks));
    if i == 0 {
        assert(after.skip(1) =~= days.skip(1));
    } else {
        lemma_occurrences_update(days.skip(1), uid, i - 1, blocks);
        assert(after.skip(1) =~= days.skip(1).update(
            i - 1,
            with_blocks(days.skip(1)[i - 1], blocks),
        ));
    }
}

/// Taking back the change of a text and doing it again gives back the state
/// as it was: the pages, the cursor and both stacks. This is said of a block
/// whose uid occurs once.
pub proof fn law_undo_redo_text(s: AppStateView)
    requires
        s.undo_stack.len() > 0,
        s.undo_stack.last() is TextEdit,
        occurrences_in_days(s.days, s.undo_stack.last()->TextEdit_block_uid) == 1,
    ensures
        redone(undone(s)) == s,
{
    let uid = s.undo_stack.last()->TextEdit_block_uid;
    let old_text = s.undo_stack.last()->TextEdit_old_text;
    let days = s.days;
    let lr = s.linked_refs;
    // The page of the block.
    if first_day(days, holds(uid)) is None {
        lemma_first_day_is(days, holds(uid));
        lemma_all_absent(days, uid);
    }
    lemma_first_day_is(days, holds(uid));
    let i = first_day(days, holds(uid)).unwrap();
    let f = days[i].blocks;
    let b = find(f, uid).unwrap();
    lemma_single_day(days, uid, i);
    lemma_current_text(days, lr, s.selected_block, uid);
    lemma_text_update(f, uid, old_text, uid);
    let f1 = update_first(f, uid, with_text(old_text));
    let days1 = days.update(i, with_blocks(days[i], f1));
    assert(undo_outcome(days, lr, s.selected_block, s.undo_stack.last()).days == days1);
    assert(is_first(days1, holds(uid), i)) by {
        assert(holds(uid)(days1[i]));
        assert forall|j: int| 0 <= j < i implies !#[trigger] holds(uid)(days1[j]) by {
            assert(days1[j] == days[j]);
            assert(!holds(uid)(days[j]));
        }
    }
    lemma_first_day(days1, holds(uid), i);
    lemma_occurrences_update(days, uid, i, f1);
    lemma_current_text(days1, lr, s.selected_block, uid);
    assert(days1.update(i, with_blocks(days1[i], f)) =~= days);
    let s1 = undone(s);
    assert(s1.redo_stack.last() == (UndoView::TextEdit { block_uid: uid, old_text: b.text }));
    assert(s1.redo_stack.drop_last() =~= s.redo_stack);
    assert(s1.undo_stack.push(s.undo_stack.last()) =~= s.undo_stack);
}

/// Where no page has a block carrying `uid`, the uid does not occur.
pub proof fn lemma_all_absent(days: Seq<DailyNoteView>, uid: Seq<char>)
    requires
        forall|k: int| 0 <= k < days.len() ==> !#[trigger] holds(uid)(days[k]),
    ensures
        occurrences_in_days(days, uid) == 0,
    decreases days.len(),
{
    if days.len() > 0 {
        assert(!holds(uid)(days[0]));
        lemma_occurs(days[0].blocks, uid);
        assert forall|k: int| 0 <= k < days.skip(1).len() implies !#[trigger] holds(uid)(
            days.skip(1)[k],
        ) by {
            assert(days.skip(1)[k] == days[k + 1]);
            assert(!holds(uid)(days[k + 1]));
        }
        lemma_all_absent(days.skip(1), uid);
    }
}

/// A block put into a list that does not have its uid is the block found by
/// that uid, is found among the blocks of the list themselves, and leaves
/// the list as it was when it is taken out again.
pub proof fn lemma_insert_found(c: Seq<BlockView>, pos: int, b: BlockView, owner: Seq<char>)
    requires
        occurrences(c, b.uid) == 0,
        0 <= pos <= c.len(),
    ensures
        sibling_pos(c.insert(pos, b), b.uid) == Some(pos),
        find(c.insert(pos, b), b.uid) == Some(b),
        parent_info(c.insert(pos, b), owner, b.uid) == Some((owner, b.order)),
        remove(c.insert(pos, b), b.uid) == c,
    decreases pos,
{
    let after = c.insert(pos, b);
    assert(after.remove(pos) =~= c);
    if pos > 0 {
        assert(after[0] == c[0]);
        assert(after.skip(1) =~= c.skip(1).insert(pos - 1, b));
        lemma_occurs(c[0].children, b.uid);
        crate::blocks::lemma_parent_info_contains(c[0].children, c[0].uid, b.uid);
        lemma_insert_found(c.skip(1), pos - 1, b, owner);
    }
}

/// Where a uid does not occur, none of the blocks of the list themselves
/// carries it.
pub proof fn lemma_absent_top(f: Seq<BlockView>, uid: Seq<char>)
    requires
        occurrences(f, uid) == 0,
    ensures
        sibling_pos(f, uid) is None,
        find(f, uid) is None,
    decreases f.len(),
{
    lemma_occurs(f, uid);
    if f.len() > 0 {
        lemma_absent_top(f.skip(1), uid);
    }
}

/// A block put below a parent in a list that does not have its uid is the
/// block found by that uid, with that parent, and leaves the list as it was
/// when it is taken out again.
pub proof fn lemma_insert_then_remove(
    f: Seq<BlockView>,
    parent: Seq<char>,
    order: int,
    b: BlockView,
    owner: Seq<char>,
)
    requires
        occurrences(f, b.uid) == 0,
        contains(f, parent),
    ensures
        sibling_pos(update_first(f, parent, with_child(order, b)), b.uid) is None,
        find(update_first(f, parent, with_child(order, b)), b.uid) == Some(b),
        parent_info(update_first(f, parent, with_child(order, b)), owner, b.uid) == Some(
            (parent, b.order),
        ),
        remove(update_first(f, parent, with_child(order, b)), b.uid) == f,
    decreases f,
{
    let g = with_child(order, b);
    let f1 = update_first(f, parent, g);
    let uid = b.uid;
    lemma_occurs(f[0].children, uid);
    lemma_occurs(f.skip(1), uid);
    lemma_absent_top(f.skip(1), uid);
    lemma_absent_top(f[0].children, uid);
    crate::blocks::lemma_parent_info_contains(f[0].children, f[0].uid, uid);
    if f[0].uid == parent {
        let kids = f[0].children;
        crate::blocks::lemma_insert_pos(kids, order);
        let pos = insert_pos(kids, order);
        lemma_insert_found(kids, pos, b, f[0].uid);
        assert(f1.skip(1) =~= f.skip(1));
        assert(f1.update(0, BlockView { children: kids, ..f1[0] }) =~= f);
    } else if contains(f[0].children, parent) {
        lemma_insert_then_remove(f[0].children, parent, order, b, f[0].uid);
        assert(f1.skip(1) =~= f.skip(1));
        assert(f1.update(0, BlockView { children: f[0].children, ..f1[0] }) =~= f);
    } else {
        lemma_insert_then_remove(f.skip(1), parent, order, b, owner);
        assert(f1.skip(1) =~= update_first(f.skip(1), parent, g));
        assert(f1[0] == f[0]);
        assert(seq![f[0]] + f.skip(1) =~= f);
    }
}

/// A block put below a parent, into pages that do not have its uid, is the
/// block found by that uid, with that parent, and leaves the pages as they
/// were when it is taken out again.
pub proof fn lemma_doc_insert_then_remove(
    days: Seq<DailyNoteView>,
    parent: Seq<char>,
    order: int,
    b: BlockView,
)
    requires
        occurrences_in_days(days, b.uid) == 0,
        doc_has_parent(days, parent),
    ensures
        doc_remove(doc_insert(days, parent, order, b), b.uid) == days,
        doc_find(doc_insert(days, parent, order, b), b.uid) == Some(b),
        doc_parent_info(doc_insert(days, parent, order, b), b.uid) == Some((parent, b.order)),
{
    let uid = b.uid;
    lemma_first_day_is(days, takes(parent));
    let i = first_day(days, takes(parent)).unwrap();
    let f = days[i].blocks;
    lemma_absent_in_days(days, uid);
    lemma_occurs_day(days, uid, i);
    let f1 = if days[i].uid == parent {
        f.insert(insert_pos(f, order), b)
    } else {
        update_first(f, parent, with_child(order, b))
    };
    if days[i].uid == parent {
        crate::blocks::lemma_insert_pos(f, order);
        lemma_insert_found(f, insert_pos(f, order), b, days[i].uid);
    } else {
        lemma_insert_then_remove(f, parent, order, b, days[i].uid);
    }
    let days1 = days.update(i, with_blocks(days[i], f1));
    assert(doc_insert(days, parent, order, b) == days1);
    assert(is_first(days1, holds(uid), i)) by {
        assert(holds(uid)(days1[i]));
        assert forall|j: int| 0 <= j < i implies !#[trigger] holds(uid)(days1[j]) by {
            assert(days1[j] == days[j]);
            assert(!holds(uid)(days[j]));
        }
    }
    lemma_first_day(days1, holds(uid), i);
    assert(days1.update(i, with_blocks(days1[i], f)) =~= days);
}

/// Taking back the deletion of a block and doing it again gives back the
/// state as it was: the pages, the cursor and both stacks; the column of the
/// cursor is 0. This is said of a state in which the deletion has just been
/// done: the uid of the block does not occur, its parent is there, the order
/// kept is the order of the block, and the cursor stands where the deletion
/// left it.
pub proof fn law_undo_redo_delete(s: AppStateView)
    requires
        s.undo_stack.len() > 0,
        s.undo_stack.last() is DeleteBlock,
        occurrences_in_days(s.days, s.undo_stack.last()->DeleteBlock_block.uid) == 0,
        doc_has_parent(s.days, s.undo_stack.last()->DeleteBlock_parent_uid),
        s.undo_stack.last()->DeleteBlock_order == s.undo_stack.last()->DeleteBlock_block.order,
        s.selected_block == clamped(
            s.undo_stack.last()->DeleteBlock_selected_block,
            flat_count(s.days),
        ),
    ensures
        redone(undone(s)) == (AppStateView { cursor_col: 0, ..s }),
{
    let entry = s.undo_stack.last();
    let b = entry->DeleteBlock_block;
    let parent = entry->DeleteBlock_parent_uid;
    let order = entry->DeleteBlock_order;
    lemma_doc_insert_then_remove(s.days, parent, order, b);
    let s1 = undone(s);
    assert(s1.redo_stack.last() == (UndoView::CreateBlock { block_uid: b.uid }));
    assert(s1.redo_stack.drop_last() =~= s.redo_stack);
    assert(s1.undo_stack.push(entry) =~= s.undo_stack);
}

/// Whether the first block that carries `uid` (in the order of [`remove`])
/// stands where its order puts it among its siblings: put back after it was
/// taken out, it comes to stand where it stood.
pub open spec fn fits(f: Seq<BlockView>, uid: Seq<char>) -> bool
    decreases f, 1int,
{
    match sibling_pos(f, uid) {
        Some(k) => 0 <= k < f.len() && insert_pos(f.remove(k), f[k].order) == k,
        None => fits_below(f, uid),
    }
}

/// [`fits`] where none of the blocks of `f` themselves carries `uid`.
pub open spec fn fits_below(f: Seq<BlockView>, uid: Seq<char>) -> bool
    decreases f, 0int,
{
    if f.len() == 0 {
        false
    } else if contains(f[0].children, uid) {
        fits(f[0].children, uid)
    } else {
        fits_below(f.skip(1), uid)
    }
}

/// Where a uid occurs once and a block of the list itself carries it, that
/// block is the one found, and its parent is the owner of the list.
pub proof fn lemma_top_found(f: Seq<BlockView>, owner: Seq<char>, uid: Seq<char>)
    requires
        occurrences(f, uid) == 1,
        sibling_pos(f, uid) is Some,
    ensures
        0 <= sibling_pos(f, uid).unwrap() < f.len(),
        find(f, uid) == Some(f[sibling_pos(f, uid).unwrap()]),
        parent_info(f, owner, uid) == Some((owner, f[sibling_pos(f, uid).unwrap()].order)),
        occurrences(f[sibling_pos(f, uid).unwrap()].children, uid) == 0,
    decreases f.len(),
{
    if f[0].uid != uid {
        crate::blocks::lemma_sibling_contains(f.skip(1), uid);
        lemma_occurs(f.skip(1), uid);
        lemma_occurs(f[0].children, uid);
        crate::blocks::lemma_parent_info_contains(f[0].children, f[0].uid, uid);
        lemma_top_found(f.skip(1), owner, uid);
        let k = sibling_pos(f.skip(1), uid).unwrap();
        assert(f.skip(1)[k] == f[k + 1]);
    }
}

/// Where a uid occurs once, below the blocks of the list themselves, the
/// parent of its block is a block of the list.
pub proof fn lemma_parent_in_list(f: Seq<BlockView>, owner: Seq<char>, uid: Seq<char>)
    requires
        occurrences(f, uid) == 1,
        sibling_pos(f, uid) is None,
    ensures
        parent_info(f, owner, uid) matches Some(p) && contains(f, p.0),
    decreases f,
{
    lemma_occurs(f, uid);
    lemma_occurs(f[0].children, uid);
    lemma_occurs(f.skip(1), uid);
    crate::blocks::lemma_parent_info_contains(f[0].children, f[0].uid, uid);
    if contains(f[0].children, uid) {
        if sibling_pos(f[0].children, uid) is Some {
            lemma_top_found(f[0].children, f[0].uid, uid);
        } else {
            lemma_parent_in_list(f[0].children, f[0].uid, uid);
        }
    } else {
        lemma_parent_in_list(f.skip(1), owner, uid);
    }
}

/// Where a uid occurs once, taking its block out leaves none.
pub proof fn lemma_removed_absent(f: Seq<BlockView>, uid: Seq<char>)
    requires
        occurrences(f, uid) == 1,
    ensures
        occurrences(remove(f, uid), uid) == 0,
        find(f, uid) is Some,
    decreases f, 1int,
{
    crate::blocks::lemma_sibling_pos(f, uid);
    lemma_occurs(f, uid);
    lemma_occurs(f[0].children, uid);
    lemma_occurs(f.skip(1), uid);
    if sibling_pos(f, uid) is Some {
        lemma_top_found(f, Seq::empty(), uid);
        let k = sibling_pos(f, uid).unwrap();
        lemma_occurrences_remove(f, uid, k);
    } else {
        lemma_removed_below_absent(f, uid);
    }
}

pub proof fn lemma_removed_below_absent(f: Seq<BlockView>, uid: Seq<char>)
    requires
        occurrences(f, uid) == 1,
        sibling_pos(f, uid) is None,
    ensures
        occurrences(remove_below(f, uid), uid) == 0,
    decreases f, 0int,
{
    lemma_occurs(f, uid);
    lemma_occurs(f[0].children, uid);
    lemma_occurs(f.skip(1), uid);
    if contains(f[0].children, uid) {
        lemma_removed_absent(f[0].children, uid);
        let after = f.update(0, BlockView { children: remove(f[0].children, uid), ..f[0] });
        assert(after.skip(1) =~= f.skip(1));
    } else {
        lemma_removed_below_absent(f.skip(1), uid);
        let after = seq![f[0]] + remove_below(f.skip(1), uid);
        assert(after.skip(1) =~= remove_below(f.skip(1), uid));
    }
}

/// The occurrences in a list without the block at `k`.
pub proof fn lemma_occurrences_remove(f: Seq<BlockView>, uid: Seq<char>, k: int)
    requires
        0 <= k < f.len(),
    ensures
        occurrences(f.remove(k), uid) + (if f[k].uid == uid {
            1nat
        } else {
            0nat
        }) + occurrences(f[k].children, uid) == occurrences(f, uid),
    decreases k,
{
    if k == 0 {
        assert(f.remove(0) =~= f.skip(1));
    } else {
        lemma_occurrences_remove(f.skip(1), uid, k - 1);
        assert(f.remove(k).skip(1) =~= f.skip(1).remove(k - 1));
        assert(f.remove(k)[0] == f[0]);
        assert(f.skip(1)[k - 1] == f[k]);
    }
}

/// Taking a block out keeps the other uids outside of it where they were.
pub proof fn lemma_remove_keeps(f: Seq<BlockView>, uid: Seq<char>, other: Seq<char>)
    ensures
        occurrences(remove(f, uid), other) <= occurrences(f, other),
        occurrences(remove_below(f, uid), other) <= occurrences(f, other),
    decreases f, 2int,
{
    crate::bounds::lemma_sibling_pos_range(f, uid);
    match sibling_pos(f, uid) {
        Some(k) => {
            lemma_occurrences_remove(f, other, k);
        },
        None => {},
    }
    lemma_remove_below_keeps(f, uid, other);
}

pub proof fn lemma_remove_below_keeps(f: Seq<BlockView>, uid: Seq<char>, other: Seq<char>)
    ensures
        occurrences(remove_below(f, uid), other) <= occurrences(f, other),
    decreases f, 1int,
{
    if f.len() > 0 {
        if contains(f[0].children, uid) {
            lemma_remove_keeps(f[0].children, uid, other);
            let after = f.update(0, BlockView { children: remove(f[0].children, uid), ..f[0] });
            assert(after.skip(1) =~= f.skip(1));
        } else {
            lemma_remove_below_keeps(f.skip(1), uid, other);
            let after = seq![f[0]] + remove_below(f.skip(1), uid);
            assert(after.skip(1) =~= remove_below(f.skip(1), uid));
        }
    }
}

/// A block that stands below the blocks of a list, where its order puts it,
/// and is taken out, comes back to where it stood when it is put back below
/// its parent. This is said where the uid of the block and the uid of its
/// parent occur once each.
pub proof fn lemma_remove_then_insert(f: Seq<BlockView>, owner: Seq<char>, uid: Seq<char>)
    requires
        occurrences(f, uid) == 1,
        sibling_pos(f, uid) is None,
        fits(f, uid),
        parent_info(f, owner, uid) is Some,
        occurrences(f, parent_info(f, owner, uid).unwrap().0) == 1,
    ensures
        find(f, uid) is Some,
        contains(remove(f, uid), parent_info(f, owner, uid).unwrap().0),
        update_first(
            remove(f, uid),
            parent_info(f, owner, uid).unwrap().0,
            with_child(find(f, uid).unwrap().order, find(f, uid).unwrap()),
        ) == f,
    decreases f,
{
    crate::blocks::lemma_sibling_pos(f, uid);
    lemma_parent_order(f, owner, uid);
    let p = parent_info(f, owner, uid).unwrap().0;
    let b = find(f, uid).unwrap();
    let g = with_child(b.order, b);
    lemma_occurs(f, uid);
    lemma_occurs(f[0].children, uid);
    lemma_occurs(f.skip(1), uid);
    lemma_occurs(f[0].children, p);
    lemma_occurs(f.skip(1), p);
    crate::blocks::lemma_parent_info_contains(f[0].children, f[0].uid, uid);
    let c = f[0].children;
    if contains(c, uid) {
        let f1 = f.update(0, BlockView { children: remove(c, uid), ..f[0] });
        assert(remove(f, uid) == f1);
        if sibling_pos(c, uid) is Some {
            lemma_top_found(c, f[0].uid, uid);
            let k = sibling_pos(c, uid).unwrap();
            assert(c.remove(k).insert(k, c[k]) =~= c);
            assert(fits_below(f, uid));
            assert(fits(c, uid));
            assert(b == c[k]);
            assert(remove(c, uid) == c.remove(k));
            assert(insert_pos(c.remove(k), b.order) == k);
            assert(f1[0].children == c.remove(k));
            assert(g(f1[0]).children == c);
            assert(f1.update(0, g(f1[0])) =~= f);
        } else {
            lemma_parent_in_list(c, f[0].uid, uid);
            lemma_remove_then_insert(c, f[0].uid, uid);
            assert(f1.update(
                0,
                BlockView { children: update_first(f1[0].children, p, g), ..f1[0] },
            ) =~= f);
        }
    } else {
        let rest = f.skip(1);
        lemma_parent_in_list(rest, owner, uid);
        lemma_remove_then_insert(rest, owner, uid);
        let f1 = seq![f[0]] + remove_below(rest, uid);
        assert(remove(f, uid) == f1);
        assert(f1.skip(1) =~= remove(rest, uid));
        assert(f1[0] == f[0]);
        assert(seq![f[0]] + rest =~= f);
    }
}

/// Number of pages that have the uid `uid`.
pub open spec fn pages_named(days: Seq<DailyNoteView>, uid: Seq<char>) -> nat
    decreases days.len(),
{
    if days.len() == 0 {
        0
    } else {
        (if days[0].uid == uid {
            1nat
        } else {
            0nat
        }) + pages_named(days.skip(1), uid)
    }
}

/// Whether `uid` names exactly one page or block.
pub open spec fn names_one(days: Seq<DailyNoteView>, uid: Seq<char>) -> bool {
    pages_named(days, uid) + occurrences_in_days(days, uid) == 1
}

/// Whether the first block of the pages that carries `uid` stands where its
/// order puts it among its siblings.
pub open spec fn fits_in_days(days: Seq<DailyNoteView>, uid: Seq<char>) -> bool {
    match first_day(days, holds(uid)) {
        Some(i) => fits(days[i].blocks, uid),
        None => false,
    }
}

/// A page is named no more often than all pages together.
pub proof fn lemma_pages_named(days: Seq<DailyNoteView>, uid: Seq<char>, j: int)
    requires
        0 <= j < days.len(),
    ensures
        days[j].uid == uid ==> pages_named(days, uid) >= 1,
        days[j].uid == uid && pages_named(days, uid) == 1 ==> forall|k: int|
            0 <= k < days.len() && k != j ==> days[k].uid != uid,
    decreases days.len(),
{
    if j == 0 {
        if days[0].uid == uid && pages_named(days, uid) == 1 {
            assert forall|k: int| 0 <= k < days.len() && k != j implies days[k].uid != uid by {
                assert(days.skip(1)[k - 1] == days[k]);
                lemma_pages_named(days.skip(1), uid, k - 1);
            }
        }
    } else {
        assert(days.skip(1)[j - 1] == days[j]);
        lemma_pages_named(days.skip(1), uid, j - 1);
        if days[j].uid == uid && pages_named(days, uid) == 1 {
            assert forall|k: int| 0 <= k < days.len() && k != j implies days[k].uid != uid by {
                if k > 0 {
                    assert(days.skip(1)[k - 1] == days[k]);
                }
            }
        }
    }
}

/// The order that is known of a block with its parent is the order of the
/// block found.
pub proof fn lemma_parent_order(f: Seq<BlockView>, owner: Seq<char>, uid: Seq<char>)
    ensures
        parent_info(f, owner, uid) matches Some(p) ==> (find(f, uid) matches Some(b) && p.1
            == b.order),
    decreases f,
{
    if f.len() > 0 && f[0].uid != uid {
        crate::blocks::lemma_parent_info_contains(f[0].children, f[0].uid, uid);
        lemma_parent_order(f[0].children, f[0].uid, uid);
        lemma_parent_order(f.skip(1), owner, uid);
    }
}

/// Where the first block that carries `uid` is taken out of the pages and
/// put back below its parent with its order, the pages are as they were.
/// This is said where the uid occurs once, its parent is named once, and
/// the block stands where its order puts it.
pub proof fn lemma_doc_remove_then_insert(days: Seq<DailyNoteView>, uid: Seq<char>)
    requires
        occurrences_in_days(days, uid) == 1,
        doc_parent_info(days, uid) is Some,
        names_one(days, doc_parent_info(days, uid).unwrap().0),
        fits_in_days(days, uid),
    ensures
        doc_find(days, uid) is Some,
        doc_parent_info(days, uid).unwrap().1 == doc_find(days, uid).unwrap().order,
        doc_has_parent(doc_remove(days, uid), doc_parent_info(days, uid).unwrap().0),
        occurrences_in_days(doc_remove(days, uid), uid) == 0,
        doc_insert(
            doc_remove(days, uid),
            doc_parent_info(days, uid).unwrap().0,
            doc_find(days, uid).unwrap().order,
            doc_find(days, uid).unwrap(),
        ) == days,
{
    lemma_first_day_is(days, holds(uid));
    let i = first_day(days, holds(uid)).unwrap();
    let f = days[i].blocks;
    let p = doc_parent_info(days, uid).unwrap().0;
    lemma_single_day(days, uid, i);
    lemma_parent_order(f, days[i].uid, uid);
    let b = find(f, uid).unwrap();
    let fr = remove(f, uid);
    let days_r = days.update(i, with_blocks(days[i], fr));
    assert(doc_remove(days, uid) == days_r);
    lemma_removed_absent(f, uid);
    lemma_occurrences_update(days, uid, i, fr);
    lemma_occurs_day(days, p, i);
    if sibling_pos(f, uid) is Some {
        lemma_top_found(f, days[i].uid, uid);
        let k = sibling_pos(f, uid).unwrap();
        assert(p == days[i].uid);
        lemma_pages_named(days, p, i);
        lemma_absent_in_days(days, p);
        assert(is_first(days_r, takes(p), i)) by {
            assert(takes(p)(days_r[i]));
            assert forall|j: int| 0 <= j < i implies !#[trigger] takes(p)(days_r[j]) by {
                assert(days_r[j] == days[j]);
                assert(!holds(p)(days[j]));
            }
        }
        lemma_first_day(days_r, takes(p), i);
        assert(fr.insert(k, b) =~= f);
        assert(days_r.update(i, with_blocks(days_r[i], f)) =~= days);
    } else {
        lemma_parent_in_list(f, days[i].uid, uid);
        lemma_occurs(f, p);
        // The parent is a block of page `i`, so it names no page and no
        // other block.
        assert(occurrences(f, p) == 1);
        assert(pages_named(days, p) == 0);
        lemma_single_day(days, p, i);
        lemma_no_page_named(days, p);
        lemma_remove_then_insert(f, days[i].uid, uid);
        assert(is_first(days_r, takes(p), i)) by {
            assert(takes(p)(days_r[i]));
            assert forall|j: int| 0 <= j < i implies !#[trigger] takes(p)(days_r[j]) by {
                assert(days_r[j] == days[j]);
                assert(!holds(p)(days[j]));
            }
        }
        lemma_first_day(days_r, takes(p), i);
        assert(days_r.update(i, with_blocks(days_r[i], f)) =~= days);
    }
}

/// The block found by a uid carries it.
pub proof fn lemma_find_uid(f: Seq<BlockView>, uid: Seq<char>)
    ensures
        find(f, uid) matches Some(b) ==> b.uid == uid,
    decreases f,
{
    if f.len() > 0 && f[0].uid != uid {
        lemma_find_uid(f[0].children, uid);
        lemma_find_uid(f.skip(1), uid);
    }
}

/// Where no page is named `uid`.
pub proof fn lemma_no_page_named(days: Seq<DailyNoteView>, uid: Seq<char>)
    requires
        pages_named(days, uid) == 0,
    ensures
        forall|k: int| 0 <= k < days.len() ==> days[k].uid != uid,
    decreases days.len(),
{
    if days.len() > 0 {
        lemma_no_page_named(days.skip(1), uid);
        assert forall|k: int| 0 <= k < days.len() implies days[k].uid != uid by {
            if k > 0 {
                assert(days.skip(1)[k - 1] == days[k]);
            }
        }
    }
}

/// Taking back the creation of a block and doing it again gives back the
/// state as it was: the pages, the cursor and both stacks; the column of the
/// cursor is 0. This is said where the uid of the block occurs once, its
/// parent is named once, and the block stands where its order puts it among
/// its siblings, as every block does where no two siblings have the same
/// order.
pub proof fn law_undo_redo_create(s: AppStateView)
    requires
        s.undo_stack.len() > 0,
        s.undo_stack.last() is CreateBlock,
        occurrences_in_days(s.days, s.undo_stack.last()->CreateBlock_block_uid) == 1,
        doc_parent_info(s.days, s.undo_stack.last()->CreateBlock_block_uid) is Some,
        names_one(
            s.days,
            doc_parent_info(s.days, s.undo_stack.last()->CreateBlock_block_uid).unwrap().0,
        ),
        fits_in_days(s.days, s.undo_stack.last()->CreateBlock_block_uid),
    ensures
        redone(undone(s)) == (AppStateView { cursor_col: 0, ..s }),
{
    let entry = s.undo_stack.last();
    let uid = entry->CreateBlock_block_uid;
    lemma_doc_remove_then_insert(s.days, uid);
    lemma_first_day_is(s.days, holds(uid));
    let i = first_day(s.days, holds(uid)).unwrap();
    lemma_find_uid(s.days[i].blocks, uid);
    let b = doc_find(s.days, uid).unwrap();
    let p = doc_parent_info(s.days, uid).unwrap();
    let s1 = undone(s);
    assert(s1.redo_stack.last() == (UndoView::DeleteBlock {
        block: b,
        parent_uid: p.0,
        order: p.1,
        selected_block: s.selected_block,
    }));
    assert(s1.days == doc_remove(s.days, uid));
    assert(s1.redo_stack.drop_last() =~= s.redo_stack);
    assert(s1.undo_stack.push(entry) =~= s.undo_stack);
}

/// Taking back the move of a block and doing it again gives back the state
/// as it was: the pages, the cursor and both stacks; the column of the
/// cursor is 0. This is said where the uid of the block occurs once, its
/// parent is named once, the block stands where its order puts it among its
/// siblings, as every block does where no two siblings have the same order,
/// and the place that the step leads back to is there.
pub proof fn law_undo_redo_move(s: AppStateView)
    requires
        s.undo_stack.len() > 0,
        s.undo_stack.last() is MoveBlock,
        occurrences_in_days(s.days, s.undo_stack.last()->MoveBlock_block_uid) == 1,
        doc_parent_info(s.days, s.undo_stack.last()->MoveBlock_block_uid) is Some,
        names_one(
            s.days,
            doc_parent_info(s.days, s.undo_stack.last()->MoveBlock_block_uid).unwrap().0,
        ),
        fits_in_days(s.days, s.undo_stack.last()->MoveBlock_block_uid),
        doc_has_parent(
            doc_remove(s.days, s.undo_stack.last()->MoveBlock_block_uid),
            s.undo_stack.last()->MoveBlock_old_parent_uid,
        ),
    ensures
        redone(undone(s)) == (AppStateView { cursor_col: 0, ..s }),
{
    let entry = s.undo_stack.last();
    let uid = entry->MoveBlock_block_uid;
    let old_parent = entry->MoveBlock_old_parent_uid;
    let old_order = entry->MoveBlock_old_order;
    let days = s.days;
    lemma_doc_remove_then_insert(days, uid);
    lemma_first_day_is(days, holds(uid));
    let i = first_day(days, holds(uid)).unwrap();
    lemma_find_uid(days[i].blocks, uid);
    let b = doc_find(days, uid).unwrap();
    let cur = doc_parent_info(days, uid).unwrap();
    let days_r = doc_remove(days, uid);
    let moved = BlockView { order: old_order, ..b };
    lemma_doc_insert_then_remove(days_r, old_parent, old_order, moved);
    let days1 = doc_insert(days_r, old_parent, old_order, moved);
    assert(doc_move(days, uid, old_parent, old_order) == days1);
    assert((BlockView { order: cur.1, ..moved }) == b);
    assert(doc_move(days1, uid, cur.0, cur.1) == days);
    let s1 = undone(s);
    assert(s1.days == days1);
    assert(s1.redo_stack.last() == (UndoView::MoveBlock {
        block_uid: uid,
        old_parent_uid: cur.0,
        old_order: cur.1,
        selected_block: s.selected_block,
    }));
    assert(s1.redo_stack.drop_last() =~= s.redo_stack);
    assert(s1.undo_stack.push(entry) =~= s.undo_stack);
}

/// The sibling that stands before the first block carrying `uid` (in the
/// order of [`indent`]), where there is one.
pub open spec fn elder(f: Seq<BlockView>, uid: Seq<char>) -> Option<BlockView>
    decreases f, 1int,
{
    match sibling_pos(f, uid) {
        Some(k) => if 0 < k < f.len() {
            Some(f[k - 1])
        } else {
            None
        },
        None => elder_below(f, uid),
    }
}

/// [`elder`] where none of the blocks of `f` themselves carries `uid`.
pub open spec fn elder_below(f: Seq<BlockView>, uid: Seq<char>) -> Option<BlockView>
    decreases f, 0int,
{
    if f.len() == 0 {
        None
    } else if contains(f[0].children, uid) {
        elder(f[0].children, uid)
    } else {
        elder_below(f.skip(1), uid)
    }
}

/// The sibling that stands before the first block of the pages carrying
/// `uid`.
pub open spec fn elder_in_days(days: Seq<DailyNoteView>, uid: Seq<char>) -> Option<BlockView> {
    match first_day(days, holds(uid)) {
        Some(i) => elder(days[i].blocks, uid),
        None => None,
    }
}

/// Where a uid does not occur, nothing can be done to its block.
pub proof fn lemma_absent_ops(f: Seq<BlockView>, owner: Seq<char>, uid: Seq<char>)
    requires
        occurrences(f, uid) == 0,
    ensures
        sibling_pos(f, uid) is None,
        parent_pos(f, uid) is None,
        indent(f, uid) is None,
        indent_below(f, uid) is None,
        dedent(f, owner, uid) is None,
        dedent_below(f, uid) is None,
    decreases f,
{
    lemma_absent_top(f, uid);
    if f.len() > 0 {
        lemma_absent_ops(f[0].children, f[0].uid, uid);
        lemma_absent_ops(f.skip(1), owner, uid);
    }
}

/// Where a uid occurs once, on the block at `k` of the list itself, no other
/// block of the list or below it carries it.
pub proof fn lemma_only_at(f: Seq<BlockView>, uid: Seq<char>, k: int)
    requires
        occurrences(f, uid) == 1,
        0 <= k < f.len(),
        f[k].uid == uid,
    ensures
        forall|j: int| 0 <= j < f.len() && j != k ==> f[j].uid != uid,
        forall|j: int| 0 <= j < f.len() ==> occurrences(#[trigger] f[j].children, uid) == 0,
    decreases f.len(),
{
    if k == 0 {
        lemma_none_at(f.skip(1), uid);
        assert forall|j: int| 0 <= j < f.len() && j != k implies f[j].uid != uid by {
            assert(f.skip(1)[j - 1] == f[j]);
        }
        assert forall|j: int| 0 <= j < f.len() implies occurrences(#[trigger] f[j].children, uid)
            == 0 by {
            if j > 0 {
                assert(f.skip(1)[j - 1] == f[j]);
            }
        }
    } else {
        assert(f.skip(1)[k - 1] == f[k]);
        lemma_occurs_at(f.skip(1), uid, k - 1);
        lemma_only_at(f.skip(1), uid, k - 1);
        assert forall|j: int| 0 <= j < f.len() && j != k implies f[j].uid != uid by {
            if j > 0 {
                assert(f.skip(1)[j - 1] == f[j]);
            }
        }
        assert forall|j: int| 0 <= j < f.len() implies occurrences(#[trigger] f[j].children, uid)
            == 0 by {
            if j > 0 {
                assert(f.skip(1)[j - 1] == f[j]);
            }
        }
    }
}

/// Where a uid does not occur, no block of the list or below it carries it.
pub proof fn lemma_none_at(f: Seq<BlockView>, uid: Seq<char>)
    requires
        occurrences(f, uid) == 0,
    ensures
        forall|j: int| 0 <= j < f.len() ==> f[j].uid != uid,
        forall|j: int| 0 <= j < f.len() ==> occurrences(#[trigger] f[j].children, uid) == 0,
    decreases f.len(),
{
    if f.len() > 0 {
        lemma_none_at(f.skip(1), uid);
        assert forall|j: int| 0 <= j < f.len() implies f[j].uid != uid by {
            if j > 0 {
                assert(f.skip(1)[j - 1] == f[j]);
            }
        }
        assert forall|j: int| 0 <= j < f.len() implies occurrences(#[trigger] f[j].children, uid)
            == 0 by {
            if j > 0 {
                assert(f.skip(1)[j - 1] == f[j]);
            }
        }
    }
}

/// A block of the list that carries the uid is one occurrence of it.
pub proof fn lemma_occurs_at(f: Seq<BlockView>, uid: Seq<char>, k: int)
    requires
        0 <= k < f.len(),
        f[k].uid == uid,
    ensures
        occurrences(f, uid) >= 1,
    decreases k,
{
    if k > 0 {
        assert(f.skip(1)[k - 1] == f[k]);
        lemma_occurs_at(f.skip(1), uid, k - 1);
    }
}

/// The first block that has the uid among its own sub-blocks is where
/// [`parent_pos`] says.
pub proof fn lemma_parent_pos_at(f: Seq<BlockView>, uid: Seq<char>, k: int)
    requires
        0 <= k < f.len(),
        sibling_pos(f[k].children, uid) is Some,
        forall|j: int| 0 <= j < k ==> sibling_pos(#[trigger] f[j].children, uid) is None,
    ensures
        parent_pos(f, uid) == Some(k),
    decreases k,
{
    if k > 0 {
        assert(sibling_pos(f[0].children, uid) is None);
        assert(f.skip(1)[k - 1] == f[k]);
        assert forall|j: int| 0 <= j < k - 1 implies sibling_pos(
            #[trigger] f.skip(1)[j].children,
            uid,
        ) is None by {
            assert(f.skip(1)[j] == f[j + 1]);
        }
        lemma_parent_pos_at(f.skip(1), uid, k - 1);
    }
}

/// Where no block has the uid among its own sub-blocks.
pub proof fn lemma_no_parent_pos(f: Seq<BlockView>, uid: Seq<char>)
    requires
        forall|j: int| 0 <= j < f.len() ==> sibling_pos(#[trigger] f[j].children, uid) is None,
    ensures
        parent_pos(f, uid) is None,
    decreases f.len(),
{
    if f.len() > 0 {
        assert(sibling_pos(f[0].children, uid) is None);
        assert forall|j: int| 0 <= j < f.skip(1).len() implies sibling_pos(
            #[trigger] f.skip(1)[j].children,
            uid,
        ) is None by {
            assert(f.skip(1)[j] == f[j + 1]);
        }
        lemma_no_parent_pos(f.skip(1), uid);
    }
}

/// A block put at the end of a list that does not have its uid among its
/// own blocks is found there.
pub proof fn lemma_sibling_pos_push(c: Seq<BlockView>, b: BlockView)
    requires
        sibling_pos(c, b.uid) is None,
    ensures
        sibling_pos(c.push(b), b.uid) == Some(c.len() as int),
    decreases c.len(),
{
    if c.len() > 0 {
        assert(c.push(b).skip(1) =~= c.skip(1).push(b));
        assert(c.push(b)[0] == c[0]);
        lemma_sibling_pos_push(c.skip(1), b);
    }
}

/// Whether the block `b` has nothing of the uid: neither itself nor below.
pub open spec fn free_of(b: BlockView, uid: Seq<char>) -> bool {
    b.uid != uid && occurrences(b.children, uid) == 0
}

/// The first block of the list itself that carries the uid, where none
/// before it has it below it, is the block found, with the owner of the
/// list as its parent.
pub proof fn lemma_top_info(f: Seq<BlockView>, owner: Seq<char>, uid: Seq<char>, k: int)
    requires
        0 <= k < f.len(),
        f[k].uid == uid,
        forall|j: int| 0 <= j < k ==> free_of(#[trigger] f[j], uid),
    ensures
        parent_info(f, owner, uid) == Some((owner, f[k].order)),
        sibling_pos(f, uid) == Some(k),
    decreases k,
{
    if k > 0 {
        assert(free_of(f[0], uid));
        lemma_occurs(f[0].children, uid);
        crate::blocks::lemma_parent_info_contains(f[0].children, f[0].uid, uid);
        assert(f.skip(1)[k - 1] == f[k]);
        assert forall|j: int| 0 <= j < k - 1 implies free_of(#[trigger] f.skip(1)[j], uid) by {
            assert(f.skip(1)[j] == f[j + 1]);
            assert(free_of(f[j + 1], uid));
        }
        lemma_top_info(f.skip(1), owner, uid, k - 1);
    }
}

/// A dedent in a list whose first block has nothing of the uid is the dedent
/// in the rest, with the first block before it.
pub proof fn lemma_dedent_after_first(f: Seq<BlockView>, owner: Seq<char>, uid: Seq<char>)
    requires
        f.len() > 0,
        f[0].uid != uid,
        occurrences(f[0].children, uid) == 0,
    ensures
        dedent(f, owner, uid) == crate::tree::after_prefix(
            seq![f[0]],
            dedent(f.skip(1), owner, uid),
        ),
{
    let rest = f.skip(1);
    lemma_absent_ops(f[0].children, f[0].uid, uid);
    crate::bounds::lemma_parent_pos_range(rest, uid);
    match parent_pos(rest, uid) {
        Some(p) => {
            assert(rest[p] == f[p + 1]);
            crate::bounds::lemma_sibling_pos_range(rest[p].children, uid);
            let c = sibling_pos(rest[p].children, uid).unwrap();
            assert(seq![f[0]] + dedent_at(rest, p, c) =~= dedent_at(f, p + 1, c));
        },
        None => {},
    }
}

/// A change to the first block carrying the uid changes the block at `k` of
/// the list itself, where that block carries it and no block before it has
/// anything of it.
pub proof fn lemma_update_at(
    f: Seq<BlockView>,
    uid: Seq<char>,
    k: int,
    g: spec_fn(BlockView) -> BlockView,
)
    requires
        0 <= k < f.len(),
        f[k].uid == uid,
        forall|j: int| 0 <= j < k ==> free_of(#[trigger] f[j], uid),
    ensures
        update_first(f, uid, g) == f.update(k, g(f[k])),
    decreases k,
{
    if k > 0 {
        assert(free_of(f[0], uid));
        lemma_occurs(f[0].children, uid);
        let rest = f.skip(1);
        assert(rest[k - 1] == f[k]);
        assert forall|j: int| 0 <= j < k - 1 implies free_of(#[trigger] rest[j], uid) by {
            assert(rest[j] == f[j + 1]);
            assert(free_of(f[j + 1], uid));
        }
        lemma_update_at(rest, uid, k - 1, g);
        assert(seq![f[0]] + rest.update(k - 1, g(f[k])) =~= f.update(k, g(f[k])));
    }
}

/// Indenting a block and dedenting it again: the block is back below its
/// parent, with the order that follows that of the sibling it was put
/// under, and nothing else has changed. This is said where the uid of the block occurs once.
pub proof fn lemma_indent_dedent(f: Seq<BlockView>, owner: Seq<char>, uid: Seq<char>)
    requires
        occurrences(f, uid) == 1,
        indent(f, uid) is Some,
    ensures
        elder(f, uid) is Some,
        parent_info(f, owner, uid) is Some,
        sibling_pos(indent(f, uid).unwrap().0, uid) is None,
        indent(f, uid).unwrap().1 == elder(f, uid).unwrap().uid,
        elder(f, uid).unwrap().order + 1 > max_order() ==> dedent(
            indent(f, uid).unwrap().0,
            owner,
            uid,
        ) is None,
        elder(f, uid).unwrap().order + 1 <= max_order() ==> (dedent(
            indent(f, uid).unwrap().0,
            owner,
            uid,
        ) matches Some(r) && r.1 == parent_info(f, owner, uid).unwrap().0 && r.2 == elder(
            f,
            uid,
        ).unwrap().order + 1 && parent_info(r.0, owner, uid) == Some((r.1, r.2)) && r.0
            == update_first(f, uid, with_order(elder(f, uid).unwrap().order + 1))),
    decreases f,
{
    let f1 = indent(f, uid).unwrap().0;
    crate::blocks::lemma_sibling_pos(f, uid);
    lemma_occurs(f, uid);
    lemma_occurs(f[0].children, uid);
    lemma_occurs(f.skip(1), uid);
    match sibling_pos(f, uid) {
        Some(k) => {
            lemma_only_at(f, uid, k);
            assert forall|j: int| 0 <= j < k implies free_of(#[trigger] f[j], uid) by {}
            lemma_top_info(f, owner, uid, k);
            let prev = f[k - 1];
            let b = f[k];
            let moved = BlockView { order: order_after_last(prev), ..b };
            let kids = prev.children.push(moved);
            assert(f1 == indent_at(f, k));
            assert(f1.len() == f.len() - 1);
            assert(f1[k - 1].children == kids);
            lemma_absent_top(prev.children, uid);
            lemma_sibling_pos_push(prev.children, moved);
            assert forall|j: int| 0 <= j < f1.len() implies f1[j].uid != uid by {
                if j < k - 1 {
                    assert(f1[j] == f[j]);
                } else if j == k - 1 {
                    assert(f1[j].uid == f[k - 1].uid);
                } else {
                    assert(f1[j] == f[j + 1]);
                }
            }
            lemma_no_top(f1, uid);
            assert forall|j: int| 0 <= j < k - 1 implies sibling_pos(
                #[trigger] f1[j].children,
                uid,
            ) is None by {
                assert(f1[j] == f[j]);
                lemma_absent_top(f[j].children, uid);
            }
            lemma_parent_pos_at(f1, uid, k - 1);
            let c = prev.children.len() as int;
            if prev.order + 1 <= max_order() {
                let f2 = dedent_at(f1, k - 1, c);
                assert(kids.remove(c) =~= prev.children);
                assert(f2.len() == f.len());
                assert(f2[k].uid == uid);
                assert(f2[k].order == prev.order + 1);
                assert forall|j: int| 0 <= j < k implies free_of(#[trigger] f2[j], uid) by {
                    if j < k - 1 {
                        assert(f2[j] == f[j]);
                    } else {
                        assert(f2[j].children == prev.children);
                        assert(f2[j].uid == prev.uid);
                    }
                }
                lemma_top_info(f2, owner, uid, k);
                let g = with_order(prev.order + 1);
                lemma_update_at(f, uid, k, g);
                assert(f1.update(k - 1, BlockView { children: prev.children, ..f1[k - 1] })
                    =~= f.remove(k));
                assert(f2 =~= f.update(k, g(b)));
            }
        },
        None => {
            crate::blocks::lemma_parent_info_contains(f[0].children, f[0].uid, uid);
            if contains(f[0].children, uid) {
                let c = f[0].children;
                lemma_absent_ops(f.skip(1), owner, uid);
                lemma_indent_dedent(c, f[0].uid, uid);
                let c1 = indent(c, uid).unwrap().0;
                assert(f1 == f.update(0, BlockView { children: c1, ..f[0] }));
                assert forall|j: int| 0 <= j < f1.len() implies f1[j].uid != uid by {
                    if j > 0 {
                        assert(f1[j] == f[j]);
                    }
                }
                lemma_no_top(f1, uid);
                lemma_none_at(f.skip(1), uid);
                assert forall|j: int| 0 <= j < f1.len() implies sibling_pos(
                    #[trigger] f1[j].children,
                    uid,
                ) is None by {
                    if j > 0 {
                        assert(f1[j] == f[j]);
                        assert(f.skip(1)[j - 1] == f[j]);
                        lemma_absent_top(f[j].children, uid);
                    }
                }
                lemma_no_parent_pos(f1, uid);
                assert(f1.skip(1) =~= f.skip(1));
                match dedent(c1, f[0].uid, uid) {
                    Some(r) => {
                        let f2 = f1.update(0, BlockView { children: r.0, ..f1[0] });
                        assert(dedent(f1, owner, uid) == Some((f2, r.1, r.2)));
                        crate::blocks::lemma_parent_info_contains(r.0, f[0].uid, uid);
                        assert(f2 =~= f.update(0, BlockView { children: r.0, ..f[0] }));
                    },
                    None => {},
                }
            } else {
                let rest = f.skip(1);
                lemma_absent_ops(f[0].children, f[0].uid, uid);
                lemma_indent_dedent(rest, owner, uid);
                let r1 = indent(rest, uid).unwrap().0;
                assert(f1 =~= seq![f[0]] + r1);
                assert(f1.skip(1) =~= r1);
                assert(f1[0] == f[0]);
                lemma_dedent_after_first(f1, owner, uid);
                match dedent(r1, owner, uid) {
                    Some(r) => {
                        let f2 = seq![f[0]] + r.0;
                        assert(f2.skip(1) =~= r.0);
                        assert(f2[0] == f[0]);
                        crate::blocks::lemma_parent_info_contains(f[0].children, f[0].uid, uid);
                    },
                    None => {},
                }
            }
        },
    }
}

/// Where no block of the list itself carries the uid.
pub proof fn lemma_no_top(f: Seq<BlockView>, uid: Seq<char>)
    requires
        forall|j: int| 0 <= j < f.len() ==> f[j].uid != uid,
    ensures
        sibling_pos(f, uid) is None,
    decreases f.len(),
{
    if f.len() > 0 {
        assert(f[0].uid != uid);
        assert forall|j: int| 0 <= j < f.skip(1).len() implies f.skip(1)[j].uid != uid by {
            assert(f.skip(1)[j] == f[j + 1]);
        }
        lemma_no_top(f.skip(1), uid);
    }
}

/// Indenting a block and dedenting it again puts it back below the parent
/// that it had, with the order that follows that of the sibling it was put
/// under, and changes nothing else: every list of siblings holds the blocks
/// that it held, in their places, and what is below the block is as it was.
/// The new order is not less than the order that the block had where that
/// was at most one more than the order of the sibling before it. This is
/// said of a block whose uid occurs once.
pub proof fn law_indent_dedent(days: Seq<DailyNoteView>, uid: Seq<char>)
    requires
        occurrences_in_days(days, uid) == 1,
        doc_indent(days, uid) is Some,
        doc_dedent(doc_indent(days, uid).unwrap().0, uid) is Some,
    ensures
        doc_parent_info(days, uid) is Some,
        elder_in_days(days, uid) is Some,
        doc_indent(days, uid).unwrap().1 == elder_in_days(days, uid).unwrap().uid,
        doc_dedent(doc_indent(days, uid).unwrap().0, uid).unwrap().1 == doc_parent_info(
            days,
            uid,
        ).unwrap().0,
        doc_dedent(doc_indent(days, uid).unwrap().0, uid).unwrap().2 == elder_in_days(
            days,
            uid,
        ).unwrap().order + 1,
        doc_parent_info(days, uid).unwrap().1 <= elder_in_days(days, uid).unwrap().order + 1
            ==> doc_dedent(doc_indent(days, uid).unwrap().0, uid).unwrap().2 >= doc_parent_info(
            days,
            uid,
        ).unwrap().1,
        doc_parent_info(doc_dedent(doc_indent(days, uid).unwrap().0, uid).unwrap().0, uid) == Some(
            (
                doc_parent_info(days, uid).unwrap().0,
                doc_dedent(doc_indent(days, uid).unwrap().0, uid).unwrap().2,
            ),
        ),
        doc_dedent(doc_indent(days, uid).unwrap().0, uid).unwrap().0 == doc_update(
            days,
            uid,
            with_order(elder_in_days(days, uid).unwrap().order + 1),
        ),
{
    lemma_first_day_is(days, can_indent(uid));
    let i = first_day(days, can_indent(uid)).unwrap();
    let f = days[i].blocks;
    if !contains(f, uid) {
        lemma_occurs(f, uid);
        lemma_absent_ops(f, days[i].uid, uid);
    }
    lemma_single_day(days, uid, i);
    lemma_indent_dedent(f, days[i].uid, uid);
    let f1 = indent(f, uid).unwrap().0;
    let d1 = days.update(i, with_blocks(days[i], f1));
    assert(doc_indent(days, uid).unwrap().0 == d1);
    // Page `i` is the first on which the block can be dedented.
    lemma_first_day_is(d1, can_dedent(uid));
    let k = first_day(d1, can_dedent(uid)).unwrap();
    if k != i {
        assert(d1[k] == days[k]);
        assert(!holds(uid)(days[k]));
        lemma_occurs(days[k].blocks, uid);
        lemma_absent_ops(days[k].blocks, days[k].uid, uid);
    }
    let r = dedent(f1, days[i].uid, uid).unwrap();
    let d2 = d1.update(i, with_blocks(d1[i], r.0));
    crate::blocks::lemma_parent_info_contains(r.0, days[i].uid, uid);
    assert(is_first(d2, holds(uid), i)) by {
        assert(holds(uid)(d2[i]));
        assert forall|j: int| 0 <= j < i implies !#[trigger] holds(uid)(d2[j]) by {
            assert(d2[j] == days[j]);
            assert(!holds(uid)(days[j]));
        }
    }
    lemma_first_day(d2, holds(uid), i);
    lemma_first_day_is(days, holds(uid));
    assert(first_day(days, holds(uid)) == Some(i));
    assert(d2 =~= days.update(
        i,
        with_blocks(days[i], update_first(f, uid, with_order(elder(f, uid).unwrap().order + 1))),
    ));
}

/// Whether every page has at least one block.
pub open spec fn all_have_blocks(days: Seq<DailyNoteView>) -> bool {
    forall|i: int| 0 <= i < days.len() ==> (#[trigger] days[i]).blocks.len() >= 1
}

/// Whether the pages stand from the newest to the oldest: no page is of an
/// earlier day than a page after it.
pub open spec fn newest_first(days: Seq<DailyNoteView>) -> bool {
    forall|i: int, j: int|
        0 <= i < j < days.len() ==> !(#[trigger] days[i]).date.before((#[trigger] days[j]).date)
}

/// What [`date_pos`] says of the place it gives: no page before it is of an
/// earlier day than `date`, and the page at it, where there is one, is.
pub proof fn lemma_date_pos_is(days: Seq<DailyNoteView>, date: Date)
    ensures
        0 <= date_pos(days, date) <= days.len(),
        forall|j: int| 0 <= j < date_pos(days, date) ==> !(#[trigger] days[j]).date.before(date),
        date_pos(days, date) < days.len() ==> days[date_pos(days, date)].date.before(date),
    decreases days.len(),
{
    if days.len() > 0 && !days[0].date.before(date) {
        let rest = days.skip(1);
        lemma_date_pos_is(rest, date);
        assert forall|j: int| 0 <= j < date_pos(days, date) implies !(#[trigger] days[j]).date.before(
            date,
        ) by {
            if j > 0 {
                assert(rest[j - 1] == days[j]);
            }
        }
        if date_pos(days, date) < days.len() {
            assert(rest[date_pos(rest, date)] == days[date_pos(days, date)]);
        }
    }
}

/// A page that has been taken in has a block, and the daily notes stay in
/// their order: where every page had a block, every page has one after a
/// daily note or a page has been loaded, and where the daily notes stood
/// from the newest to the oldest, they still do with the one that came.
pub proof fn law_loaded_pages_keep_their_shape(s: AppStateView, note: DailyNoteView, uid: Seq<char>)
    ensures
        daily_loaded(s, note, uid).days.len() == s.days.len() + 1,
        all_have_blocks(s.days) ==> all_have_blocks(daily_loaded(s, note, uid).days),
        newest_first(s.days) ==> newest_first(daily_loaded(s, note, uid).days),
        page_loaded(s, note, uid).days.len() == 1,
        all_have_blocks(page_loaded(s, note, uid).days),
{
    lemma_date_pos_is(s.days, note.date);
    let p = date_pos(s.days, note.date);
    let page = taken_in(note, uid, true);
    let after = daily_loaded(s, note, uid).days;
    assert(page.blocks.len() >= 1);
    assert(page.date == note.date);
    if all_have_blocks(s.days) {
        assert forall|i: int| 0 <= i < after.len() implies (#[trigger] after[i]).blocks.len()
            >= 1 by {
            if i < p {
                assert(after[i] == s.days[i]);
            } else if i > p {
                assert(after[i] == s.days[i - 1]);
            }
        }
    }
    if newest_first(s.days) {
        assert forall|i: int, j: int| 0 <= i < j < after.len() implies !(#[trigger] after[i]).date.before(
            (#[trigger] after[j]).date,
        ) by {
            let a = if i < p {
                s.days[i]
            } else if i == p {
                page
            } else {
                s.days[i - 1]
            };
            let b = if j < p {
                s.days[j]
            } else if j == p {
                page
            } else {
                s.days[j - 1]
            };
            assert(after[i] == a);
            assert(after[j] == b);
            if i == p {
                // The page at `p` was of an earlier day, and so is each page after it.
                assert(s.days[p].date.before(note.date));
                if j - 1 > p {
                    assert(!s.days[p].date.before(s.days[j - 1].date));
                }
            }
        }
    }
    assert(taken_in(note, uid, false).blocks.len() >= 1);
}

/// A jump keeps the history of views within its bound: where no more than
/// [`history_cap`] views were kept, no more are kept after the view shown
/// has been added; the view added is the last, the state stands at the end,
/// and what lay ahead of the place where it stood is gone.
pub proof fn law_history_stays_bounded(s: AppStateView)
    requires
        s.nav_history.len() <= history_cap(),
        s.nav_index <= s.nav_history.len(),
    ensures
        pushed(s).nav_history.len() <= history_cap(),
        pushed(s).nav_history.len() <= s.nav_index + 1,
        pushed(s).nav_history.last() == snapshot_of(s),
        pushed(s).nav_index == pushed(s).nav_history.len(),
{
}

/// A step back in the history of views and a step forward again show the
/// view that was left: its mode, its pages and its cursor. This is said
/// where there is a view to go back to.
pub proof fn law_back_then_forward(s: AppStateView)
    requires
        0 < s.nav_index <= s.nav_history.len(),
    ensures
        snapshot_of(nav_forward(nav_back(s))) == snapshot_of(s),
{
    let back = nav_back(s);
    let i = back.nav_index as int;
    assert(0 <= i && i + 1 < back.nav_history.len());
    assert(back.nav_history[i + 1] == snapshot_of(s));
    assert(snapshot_of(back) == back.nav_history[i]);
    let kept = saved(back);
    assert(kept.nav_history =~= back.nav_history);
}

/// No action lets the history of views pass its bound: where no more than
/// [`history_cap`] views were kept, no more are kept after any action, nor
/// after a block has been created.
pub proof fn law_history_within_cap(s: AppStateView, action: Action, uid: Seq<char>)
    requires
        s.nav_history.len() <= history_cap(),
    ensures
        acted(s, action).nav_history.len() <= history_cap(),
        created(s, uid).nav_history.len() <= history_cap(),
{
}

/// A row of a list of blocks shows a block exactly where it is one of the
/// rows that the list occupies.
pub proof fn lemma_row_at_is(f: Seq<BlockView>, parent: Seq<char>, depth: nat, t: nat)
    ensures
        row_at(f, parent, depth, t) is Some <==> t < visible_count(f),
    decreases f,
{
    if f.len() > 0 && t > 0 {
        if t < rows(f[0]) {
            lemma_row_at_is(f[0].children, f[0].uid, depth + 1, (t - 1) as nat);
        } else {
            lemma_row_at_is(f.skip(1), parent, depth, (t - rows(f[0])) as nat);
        }
    }
}

/// A row of the groups of a section shows something exactly where it is one
/// of the rows that the groups occupy.
pub proof fn lemma_item_in_groups_is(groups: Seq<LinkedRefGroupView>, t: nat)
    ensures
        item_in_groups(groups, t) is Some <==> t < group_rows(groups),
    decreases groups.len(),
{
    if groups.len() > 0 && t > 0 && t - 1 >= groups[0].blocks.len() {
        lemma_item_in_groups_is(groups.skip(1), (t - 1 - groups[0].blocks.len()) as nat);
    }
}

/// Every row shows one thing: a row among the rows of all pages shows either
/// a block or something of a section of references, never both, and a row
/// past the last shows nothing.
pub proof fn law_every_row_shows_one_thing(
    days: Seq<DailyNoteView>,
    lr: Seq<(Seq<char>, LinkedRefsView)>,
    t: nat,
)
    ensures
        t < total_rows(days, lr) <==> (row_in_days(days, lr, t) is Some || ref_item_in_days(
            days,
            lr,
            t,
        ) is Some),
        !(row_in_days(days, lr, t) is Some && ref_item_in_days(days, lr, t) is Some),
    decreases days.len(),
{
    if days.len() > 0 {
        let shown = visible_count(days[0].blocks);
        if t < shown {
            lemma_row_at_is(days[0].blocks, days[0].uid, 0, t);
        } else if t < day_rows(days[0], lr) {
            let section = lookup(lr, days[0].title).unwrap();
            let offset = (t - shown) as nat;
            if offset > 0 && !section.collapsed {
                lemma_item_in_groups_is(section.groups, (offset - 1) as nat);
            }
        } else {
            law_every_row_shows_one_thing(days.skip(1), lr, (t - day_rows(days[0], lr)) as nat);
        }
    }
}

/// Where a uid occurs once, the row that shows its block names the parent
/// and the order that are found for it.
pub proof fn lemma_row_parent(f: Seq<BlockView>, parent: Seq<char>, depth: nat, t: nat)
    requires
        row_at(f, parent, depth, t) is Some,
        occurrences(f, row_at(f, parent, depth, t).unwrap().block_uid) == 1,
    ensures
        parent_info(f, parent, row_at(f, parent, depth, t).unwrap().block_uid) == Some(
            (
                row_at(f, parent, depth, t).unwrap().parent_uid,
                row_at(f, parent, depth, t).unwrap().order,
            ),
        ),
    decreases f,
{
    let r = row_at(f, parent, depth, t).unwrap();
    let uid = r.block_uid;
    if t != 0 {
        lemma_occurs(f[0].children, uid);
        lemma_occurs(f.skip(1), uid);
        crate::blocks::lemma_parent_info_contains(f[0].children, f[0].uid, uid);
        if t < rows(f[0]) {
            lemma_row_contains(f[0].children, f[0].uid, depth + 1, (t - 1) as nat);
            lemma_row_parent(f[0].children, f[0].uid, depth + 1, (t - 1) as nat);
        } else {
            lemma_row_contains(f.skip(1), parent, depth, (t - rows(f[0])) as nat);
            lemma_row_parent(f.skip(1), parent, depth, (t - rows(f[0])) as nat);
        }
    }
}

/// The parent of a block is still there after the block has been taken out.
/// This is said of a block that stands below another and whose uid occurs
/// once.
pub proof fn lemma_parent_kept(f: Seq<BlockView>, owner: Seq<char>, uid: Seq<char>)
    requires
        occurrences(f, uid) == 1,
        sibling_pos(f, uid) is None,
    ensures
        parent_info(f, owner, uid) matches Some(p) && contains(remove(f, uid), p.0),
    decreases f,
{
    lemma_occurs(f, uid);
    lemma_occurs(f[0].children, uid);
    lemma_occurs(f.skip(1), uid);
    crate::blocks::lemma_parent_info_contains(f[0].children, f[0].uid, uid);
    if contains(f[0].children, uid) {
        let c = f[0].children;
        let after = f.update(0, BlockView { children: remove(c, uid), ..f[0] });
        assert(remove(f, uid) == after);
        if sibling_pos(c, uid) is Some {
            lemma_top_found(c, f[0].uid, uid);
        } else {
            lemma_parent_kept(c, f[0].uid, uid);
        }
    } else {
        let rest = f.skip(1);
        lemma_parent_kept(rest, owner, uid);
        let r = remove_below(rest, uid);
        assert(remove(rest, uid) == r);
        let after = seq![f[0]] + r;
        assert(remove(f, uid) == after);
        assert(after.skip(1) =~= r);
        assert(after[0] == f[0]);
    }
}

/// Deleting the block under the cursor, taking the deletion back and doing
/// it again gives the state after the deletion: the pages, the cursor and
/// both stacks; the column of the cursor is 0. This is said where the uid of
/// the block occurs once, and where rows are left or the cursor stood on the
/// first row. Taking the deletion back gives the pages and the cursor as
/// they were before it, where the uid of the parent names one thing and the
/// block stood where its order places it.
pub proof fn law_delete_undo_redo(s: AppStateView)
    requires
        row_in_days(s.days, s.linked_refs, s.selected_block) matches Some(info)
            && occurrences_in_days(s.days, info.block_uid) == 1 && (s.selected_block == 0
            || flat_count(doc_remove(s.days, info.block_uid)) > 0),
    ensures
        redone(undone(deleted(s))) == (AppStateView { cursor_col: 0, ..deleted(s) }),
        deleted(s).undo_stack.len() == s.undo_stack.len() + 1,
        names_one(
            s.days,
            row_in_days(s.days, s.linked_refs, s.selected_block).unwrap().parent_uid,
        ) && fits_in_days(
            s.days,
            row_in_days(s.days, s.linked_refs, s.selected_block).unwrap().block_uid,
        ) ==> undone(deleted(s)).days == s.days && undone(deleted(s)).selected_block
            == s.selected_block && undone(deleted(s)).undo_stack == s.undo_stack,
{
    let info = row_in_days(s.days, s.linked_refs, s.selected_block).unwrap();
    let uid = info.block_uid;
    law_every_row_shows_one_thing(s.days, s.linked_refs, s.selected_block);
    let (j, t) = lemma_row_day(s.days, s.linked_refs, s.selected_block);
    let f = s.days[j].blocks;
    lemma_row_contains(f, s.days[j].uid, 0, t);
    lemma_single_day(s.days, uid, j);
    lemma_row_parent(f, s.days[j].uid, 0, t);
    lemma_parent_order(f, s.days[j].uid, uid);
    lemma_removed_absent(f, uid);
    lemma_find_uid(f, uid);
    let b = find(f, uid).unwrap();
    let days1 = s.days.update(j, with_blocks(s.days[j], remove(f, uid)));
    assert(doc_remove(s.days, uid) == days1);
    // The uid is gone from every page.
    assert forall|k: int| 0 <= k < days1.len() implies !#[trigger] holds(uid)(days1[k]) by {
        if k == j {
            lemma_occurs(remove(f, uid), uid);
        } else {
            assert(days1[k] == s.days[k]);
            assert(!holds(uid)(s.days[k]));
        }
    }
    lemma_all_absent(days1, uid);
    // The parent is still there.
    if sibling_pos(f, uid) is Some {
        lemma_top_found(f, s.days[j].uid, uid);
    } else {
        lemma_parent_kept(f, s.days[j].uid, uid);
    }
    assert(takes(info.parent_uid)(days1[j]));
    crate::doc::lemma_least(days1, takes(info.parent_uid), j);
    let after = deleted(s);
    assert(after.days == days1);
    assert(after.undo_stack.last() == UndoView::DeleteBlock {
        block: b,
        parent_uid: info.parent_uid,
        order: info.order,
        selected_block: s.selected_block,
    });
    law_undo_redo_delete(after);
    assert(after.undo_stack.drop_last() =~= s.undo_stack);
    assert(doc_parent_info(s.days, uid) == Some((info.parent_uid, info.order)));
    if names_one(s.days, info.parent_uid) && fits_in_days(s.days, uid) {
        lemma_doc_remove_then_insert(s.days, uid);
    }
}

/// The state in which the block `b` has just been created below `parent`:
/// it stands where its order places it, and its creation is the newest step
/// that can be taken back.
pub open spec fn just_created(s: AppStateView, parent: Seq<char>, b: BlockView) -> AppStateView {
    AppStateView {
        days: doc_insert(s.days, parent, b.order, b),
        undo_stack: s.undo_stack.push(UndoView::CreateBlock { block_uid: b.uid }),
        ..s
    }
}

/// Creating a block, taking the creation back and doing it again gives the
/// state after the creation: the pages, the cursor and both stacks; the
/// column of the cursor is 0. Taking the creation back gives the pages as
/// they were before it. This is said of a block with a uid that no block
/// carried, below a parent that is there.
pub proof fn law_create_undo_redo(s: AppStateView, parent: Seq<char>, b: BlockView)
    requires
        occurrences_in_days(s.days, b.uid) == 0,
        doc_has_parent(s.days, parent),
    ensures
        undone(just_created(s, parent, b)).days == s.days,
        undone(just_created(s, parent, b)).undo_stack == s.undo_stack,
        redone(undone(just_created(s, parent, b))) == (AppStateView {
            cursor_col: 0,
            ..just_created(s, parent, b)
        }),
{
    let made = just_created(s, parent, b);
    lemma_doc_insert_then_remove(s.days, parent, b.order, b);
    let back = undone(made);
    assert(made.undo_stack.drop_last() =~= s.undo_stack);
    assert(back.days == s.days);
    assert(back.redo_stack.last() == (UndoView::DeleteBlock {
        block: b,
        parent_uid: parent,
        order: b.order,
        selected_block: made.selected_block,
    }));
    assert(back.redo_stack.drop_last() =~= s.redo_stack);
}

/// Among siblings of which no two have the same order, each block stands
/// where its order places it.
pub proof fn lemma_strict_fits(f: Seq<BlockView>, uid: Seq<char>)
    requires
        strictly_ranked(f),
        occurrences(f, uid) == 1,
    ensures
        fits(f, uid),
    decreases f, 1int,
{
    crate::blocks::lemma_sibling_pos(f, uid);
    match sibling_pos(f, uid) {
        Some(k) => {
            let g = f.remove(k);
            let o = f[k].order;
            crate::blocks::lemma_insert_pos(g, o);
            let p = insert_pos(g, o);
            if p < k {
                assert(g[p] == f[p]);
                assert(f[p].order < f[k].order);
            }
            if p > k {
                assert(g[k] == f[k + 1]);
                assert(f[k].order < f[k + 1].order);
            }
        },
        None => {
            lemma_strict_fits_below(f, uid);
        },
    }
}

pub proof fn lemma_strict_fits_below(f: Seq<BlockView>, uid: Seq<char>)
    requires
        strictly_ranked(f),
        occurrences(f, uid) == 1,
        sibling_pos(f, uid) is None,
    ensures
        fits_below(f, uid),
    decreases f, 0int,
{
    lemma_occurs(f, uid);
    lemma_occurs(f[0].children, uid);
    lemma_occurs(f.skip(1), uid);
    crate::order::lemma_strict_rest(f);
    if contains(f[0].children, uid) {
        lemma_strict_fits(f[0].children, uid);
    } else {
        lemma_strict_fits_below(f.skip(1), uid);
    }
}

/// Where no two siblings have the same order, every block whose uid occurs
/// once stands where its order places it: taken out and put back, it comes
/// to stand where it stood.
pub proof fn law_distinct_orders_fit(days: Seq<DailyNoteView>, uid: Seq<char>)
    requires
        pages_strictly_ranked(days),
        occurrences_in_days(days, uid) == 1,
    ensures
        fits_in_days(days, uid),
{
    lemma_first_day_is(days, holds(uid));
    match first_day(days, holds(uid)) {
        Some(i) => {
            lemma_single_day(days, uid, i);
            lemma_strict_fits(days[i].blocks, uid);
        },
        None => {
            lemma_all_absent(days, uid);
        },
    }
}

/// Taking out a block whose uid occurs once leaves no block with that uid,
/// and leaves its parent, page or block, where it was.
pub proof fn lemma_doc_parent_kept(days: Seq<DailyNoteView>, uid: Seq<char>)
    requires
        occurrences_in_days(days, uid) == 1,
    ensures
        doc_find(days, uid) matches Some(b) && b.uid == uid,
        doc_parent_info(days, uid) matches Some(p) && doc_has_parent(doc_remove(days, uid), p.0),
        occurrences_in_days(doc_remove(days, uid), uid) == 0,
{
    lemma_first_day_is(days, holds(uid));
    if first_day(days, holds(uid)) is None {
        lemma_all_absent(days, uid);
    }
    let j = first_day(days, holds(uid)).unwrap();
    let f = days[j].blocks;
    lemma_single_day(days, uid, j);
    lemma_removed_absent(f, uid);
    lemma_find_uid(f, uid);
    let days1 = days.update(j, with_blocks(days[j], remove(f, uid)));
    assert(doc_remove(days, uid) == days1);
    assert forall|k: int| 0 <= k < days1.len() implies !#[trigger] holds(uid)(days1[k]) by {
        if k == j {
            lemma_occurs(remove(f, uid), uid);
        } else {
            assert(days1[k] == days[k]);
            assert(!holds(uid)(days[k]));
        }
    }
    lemma_all_absent(days1, uid);
    if sibling_pos(f, uid) is Some {
        lemma_top_found(f, days[j].uid, uid);
    } else {
        lemma_parent_kept(f, days[j].uid, uid);
    }
    let p = parent_info(f, days[j].uid, uid).unwrap();
    assert(takes(p.0)(days1[j]));
    crate::doc::lemma_least(days1, takes(p.0), j);
}

/// The state in which the block `uid` has just been moved below `parent`,
/// with the order `order`, and the cursor stands on row `cursor`: the block
/// stands where that order places it, and the move is the newest step that
/// can be taken back; the step keeps the parent and the order that the block
/// had, and the row on which the cursor stood.
pub open spec fn just_moved(
    s: AppStateView,
    uid: Seq<char>,
    parent: Seq<char>,
    order: int,
    cursor: nat,
) -> AppStateView {
    AppStateView {
        days: doc_move(s.days, uid, parent, order),
        selected_block: cursor,
        undo_stack: s.undo_stack.push(
            UndoView::MoveBlock {
                block_uid: uid,
                old_parent_uid: doc_parent_info(s.days, uid).unwrap().0,
                old_order: doc_parent_info(s.days, uid).unwrap().1,
                selected_block: s.selected_block,
            },
        ),
        ..s
    }
}

/// Moving a block, taking the move back and doing it again gives the state
/// after the move: the pages, the cursor and both stacks; the column of the
/// cursor is 0. This is said of a block whose uid occurs once, moved below a
/// parent that is there without it. Taking the move back gives the pages as
/// they were before it, where the uid of the old parent names one thing and
/// the block stood where its order places it.
pub proof fn law_move_undo_redo(
    s: AppStateView,
    uid: Seq<char>,
    parent: Seq<char>,
    order: int,
    cursor: nat,
)
    requires
        occurrences_in_days(s.days, uid) == 1,
        doc_has_parent(doc_remove(s.days, uid), parent),
    ensures
        redone(undone(just_moved(s, uid, parent, order, cursor))) == (AppStateView {
            cursor_col: 0,
            ..just_moved(s, uid, parent, order, cursor)
        }),
        undone(just_moved(s, uid, parent, order, cursor)).undo_stack == s.undo_stack,
        undone(just_moved(s, uid, parent, order, cursor)).selected_block == s.selected_block,
        names_one(s.days, doc_parent_info(s.days, uid).unwrap().0) && fits_in_days(s.days, uid)
            ==> undone(just_moved(s, uid, parent, order, cursor)).days == s.days,
{
    lemma_doc_parent_kept(s.days, uid);
    let b = doc_find(s.days, uid).unwrap();
    let old = doc_parent_info(s.days, uid).unwrap();
    let rest = doc_remove(s.days, uid);
    let there = BlockView { order: order, ..b };
    let back = BlockView { order: old.1, ..b };
    let moved = just_moved(s, uid, parent, order, cursor);
    lemma_doc_insert_then_remove(rest, parent, order, there);
    assert(moved.days == doc_insert(rest, parent, order, there));
    lemma_doc_insert_then_remove(rest, old.0, old.1, back);
    let undo = undone(moved);
    assert(moved.undo_stack.drop_last() =~= s.undo_stack);
    assert((BlockView { order: old.1, ..there }) == back);
    assert(undo.days == doc_insert(rest, old.0, old.1, back));
    assert(undo.redo_stack.last() == (UndoView::MoveBlock {
        block_uid: uid,
        old_parent_uid: parent,
        old_order: order,
        selected_block: moved.selected_block,
    }));
    assert(undo.redo_stack.drop_last() =~= s.redo_stack);
    assert((BlockView { order: order, ..back }) == there);
    if names_one(s.days, old.0) && fits_in_days(s.days, uid) {
        lemma_doc_remove_then_insert(s.days, uid);
        assert(back == b);
    }
}

/// The sibling before a block is a block of the list.
pub proof fn lemma_elder_contains(f: Seq<BlockView>, uid: Seq<char>)
    ensures
        elder(f, uid) matches Some(e) ==> contains(f, e.uid),
        elder_below(f, uid) matches Some(e) ==> contains(f, e.uid),
    decreases f, 2int,
{
    crate::blocks::lemma_sibling_pos(f, uid);
    match sibling_pos(f, uid) {
        Some(k) => {
            if 0 < k {
                lemma_top_is_there(f, k - 1);
            }
        },
        None => {},
    }
    if f.len() > 0 {
        if contains(f[0].children, uid) {
            lemma_elder_contains(f[0].children, uid);
        } else {
            lemma_elder_contains(f.skip(1), uid);
        }
    }
}

/// A block of the list itself is a block of the list.
pub proof fn lemma_top_is_there(f: Seq<BlockView>, k: int)
    requires
        0 <= k < f.len(),
    ensures
        contains(f, f[k].uid),
    decreases k,
{
    if k > 0 && f[0].uid != f[k].uid {
        assert(f.skip(1)[k - 1] == f[k]);
        lemma_top_is_there(f.skip(1), k - 1);
    }
}

/// An order greater than every order of a list in order has its place at
/// the end of the list.
pub proof fn lemma_insert_pos_end(c: Seq<BlockView>, order: int)
    requires
        ranked(c),
        c.len() > 0 ==> c.last().order < order,
    ensures
        insert_pos(c, order) == c.len(),
{
    crate::blocks::lemma_insert_pos(c, order);
    let p = insert_pos(c, order);
    if p < c.len() {
        if p < c.len() - 1 {
            assert(c[p].order <= c[c.len() - 1].order);
        }
    }
}

/// Indenting a block is moving it to the end of the sibling before it:
/// taking it out and putting it below that sibling with the order after its
/// last sub-block. This is said of blocks in the order of their ranks, where
/// the uids of the block and of that sibling occur once.
pub proof fn lemma_indent_is_move(f: Seq<BlockView>, uid: Seq<char>)
    requires
        ranked(f),
        occurrences(f, uid) == 1,
        indent(f, uid) is Some,
        elder(f, uid) matches Some(e) && occurrences(f, e.uid) == 1,
    ensures
        find(f, uid) is Some,
        indent(f, uid).unwrap().1 == elder(f, uid).unwrap().uid,
        contains(remove(f, uid), indent(f, uid).unwrap().1),
        indent(f, uid).unwrap().0 == update_first(
            remove(f, uid),
            indent(f, uid).unwrap().1,
            with_child(
                indent(f, uid).unwrap().2,
                BlockView { order: indent(f, uid).unwrap().2, ..find(f, uid).unwrap() },
            ),
        ),
    decreases f,
{
    let e = elder(f, uid).unwrap();
    let r = indent(f, uid).unwrap();
    crate::blocks::lemma_sibling_pos(f, uid);
    lemma_occurs(f, uid);
    lemma_occurs(f[0].children, uid);
    lemma_occurs(f.skip(1), uid);
    lemma_occurs(f[0].children, e.uid);
    lemma_occurs(f.skip(1), e.uid);
    crate::order::lemma_ranked_rest(f);
    match sibling_pos(f, uid) {
        Some(k) => {
            lemma_top_found(f, Seq::empty(), uid);
            let prev = f[k - 1];
            let b = f[k];
            let o = order_after_last(prev);
            let moved = BlockView { order: o, ..b };
            let h = f.remove(k);
            assert(remove(f, uid) == h);
            assert(h[k - 1] == prev);
            lemma_only_at(f, e.uid, k - 1);
            assert forall|j: int| 0 <= j < k - 1 implies free_of(#[trigger] h[j], e.uid) by {
                assert(h[j] == f[j]);
            }
            let g = with_child(o, moved);
            lemma_update_at(h, e.uid, k - 1, g);
            assert(ranked(prev.children));
            lemma_insert_pos_end(prev.children, o);
            assert(prev.children.insert(prev.children.len() as int, moved) =~= prev.children.push(
                moved,
            ));
            lemma_top_is_there(h, k - 1);
        },
        None => {
            if contains(f[0].children, uid) {
                let c = f[0].children;
                lemma_absent_ops(f.skip(1), Seq::empty(), uid);
                lemma_elder_contains(c, uid);
                lemma_indent_is_move(c, uid);
                let h = f.update(0, BlockView { children: remove(c, uid), ..f[0] });
                assert(remove(f, uid) == h);
                assert(h[0].children == remove(c, uid));
            } else {
                let rest = f.skip(1);
                lemma_absent_ops(f[0].children, f[0].uid, uid);
                lemma_elder_contains(rest, uid);
                lemma_indent_is_move(rest, uid);
                let gone = remove_below(rest, uid);
                assert(remove(rest, uid) == gone);
                let h = seq![f[0]] + gone;
                assert(remove(f, uid) == h);
                assert(h.skip(1) =~= gone);
                assert(h[0] == f[0]);
            }
        },
    }
}

/// Indenting a block of the pages is moving it to the end of the sibling
/// before it. This is said of pages whose blocks stand in the order of their
/// ranks, where the uid of the block occurs once and the uid of that sibling
/// names one thing.
pub proof fn lemma_doc_indent_is_move(days: Seq<DailyNoteView>, uid: Seq<char>)
    requires
        pages_ranked(days),
        occurrences_in_days(days, uid) == 1,
        doc_indent(days, uid) is Some,
        elder_in_days(days, uid) matches Some(e) && names_one(days, e.uid),
    ensures
        doc_find(days, uid) is Some,
        doc_indent(days, uid).unwrap().1 == elder_in_days(days, uid).unwrap().uid,
        doc_has_parent(doc_remove(days, uid), doc_indent(days, uid).unwrap().1),
        doc_indent(days, uid).unwrap().0 == doc_move(
            days,
            uid,
            doc_indent(days, uid).unwrap().1,
            doc_indent(days, uid).unwrap().2,
        ),
{
    lemma_first_day_is(days, can_indent(uid));
    let i = first_day(days, can_indent(uid)).unwrap();
    let f = days[i].blocks;
    if !contains(f, uid) {
        lemma_occurs(f, uid);
        lemma_absent_ops(f, days[i].uid, uid);
    }
    lemma_single_day(days, uid, i);
    let e = elder(f, uid).unwrap();
    lemma_elder_contains(f, uid);
    lemma_occurs(f, e.uid);
    lemma_occurs_day(days, e.uid, i);
    lemma_single_day(days, e.uid, i);
    assert forall|k: int| 0 <= k < days.len() implies days[k].uid != e.uid by {
        lemma_pages_named(days, e.uid, k);
    }
    lemma_indent_is_move(f, uid);
    let r = indent(f, uid).unwrap();
    let b = find(f, uid).unwrap();
    let moved = BlockView { order: r.2, ..b };
    let rest = days.update(i, with_blocks(days[i], remove(f, uid)));
    assert(doc_remove(days, uid) == rest);
    assert(is_first(rest, takes(e.uid), i)) by {
        assert(takes(e.uid)(rest[i]));
        assert forall|k: int| 0 <= k < i implies !#[trigger] takes(e.uid)(rest[k]) by {
            assert(rest[k] == days[k]);
            assert(!holds(e.uid)(days[k]));
        }
    }
    lemma_first_day(rest, takes(e.uid), i);
    assert(doc_insert(rest, e.uid, r.2, moved) =~= days.update(i, with_blocks(days[i], r.0)));
}

/// Indenting the block that is being edited, taking the move back and doing
/// it again gives the state after the indent: the pages, the cursor and both
/// stacks; the column of the cursor is 0. This is said of a block that is
/// shown and not being created, in pages whose blocks stand in the order of
/// their ranks, where the uid of the block occurs once and the uid of the
/// sibling before it names one thing.
pub proof fn law_indent_undo_redo(s: AppStateView)
    requires
        edited_block(s.input_mode) matches Some(edit) && !edit.1 && occurrences_in_days(
            s.days,
            edit.0,
        ) == 1 && index_in_days(s.days, s.linked_refs, edit.0) is Some && doc_indent(
            s.days,
            edit.0,
        ) is Some && (elder_in_days(s.days, edit.0) matches Some(e) && names_one(s.days, e.uid)),
        pages_ranked(s.days),
    ensures
        redone(undone(indented(s))) == (AppStateView { cursor_col: 0, ..indented(s) }),
        indented(s).undo_stack.len() == s.undo_stack.len() + 1,
{
    let uid = edited_block(s.input_mode).unwrap().0;
    law_index_round_trip(s.days, s.linked_refs, uid);
    let k = index_in_days(s.days, s.linked_refs, uid).unwrap();
    let (j, t) = lemma_row_day(s.days, s.linked_refs, k);
    let f = s.days[j].blocks;
    lemma_row_contains(f, s.days[j].uid, 0, t);
    lemma_single_day(s.days, uid, j);
    lemma_row_parent(f, s.days[j].uid, 0, t);
    lemma_doc_indent_is_move(s.days, uid);
    let r = doc_indent(s.days, uid).unwrap();
    let base = AppStateView { redo_stack: Seq::empty(), ..s };
    assert(indented(s) == just_moved(base, uid, r.1, r.2, s.selected_block));
    law_move_undo_redo(base, uid, r.1, r.2, s.selected_block);
}

/// The parent that a dedent gives is the owner of the list, where the block
/// stands below a block of the list itself, and else a block of the list.
pub proof fn lemma_dedent_parent_there(f: Seq<BlockView>, owner: Seq<char>, uid: Seq<char>)
    ensures
        dedent(f, owner, uid) matches Some(r) ==> (parent_pos(f, uid) is Some && r.1 == owner)
            || (parent_pos(f, uid) is None && contains(f, r.1)),
        dedent_below(f, uid) matches Some(r) ==> contains(f, r.1),
    decreases f, 2int,
{
    if f.len() > 0 {
        lemma_dedent_parent_there(f[0].children, f[0].uid, uid);
        lemma_dedent_parent_there(f.skip(1), owner, uid);
        lemma_top_is_there(f, 0);
    }
}

/// Dedenting a block is moving it below the parent of its parent, with the
/// order after that of its parent: taking it out and putting it where that
/// order places it. This is said of blocks of which no two siblings have the
/// same order, where the uid of the block occurs once, and the uid of the
/// new parent too where that is a block of the list.
pub proof fn lemma_dedent_is_move(f: Seq<BlockView>, owner: Seq<char>, uid: Seq<char>)
    requires
        strictly_ranked(f),
        occurrences(f, uid) == 1,
        dedent(f, owner, uid) is Some,
        parent_pos(f, uid) is None ==> occurrences(f, dedent(f, owner, uid).unwrap().1) == 1,
    ensures
        find(f, uid) is Some,
        sibling_pos(f, uid) is None,
        parent_pos(f, uid) matches Some(p) ==> 0 <= p < f.len() && dedent(f, owner, uid).unwrap().1
            == owner && dedent(f, owner, uid).unwrap().2 == f[p].order + 1 && same_ranks(
            f,
            remove(f, uid),
        ) && dedent(f, owner, uid).unwrap().0 == remove(f, uid).insert(
            insert_pos(remove(f, uid), dedent(f, owner, uid).unwrap().2),
            BlockView { order: dedent(f, owner, uid).unwrap().2, ..find(f, uid).unwrap() },
        ),
        parent_pos(f, uid) is None ==> contains(remove(f, uid), dedent(f, owner, uid).unwrap().1)
            && dedent(f, owner, uid).unwrap().0 == update_first(
            remove(f, uid),
            dedent(f, owner, uid).unwrap().1,
            with_child(
                dedent(f, owner, uid).unwrap().2,
                BlockView { order: dedent(f, owner, uid).unwrap().2, ..find(f, uid).unwrap() },
            ),
        ),
    decreases f,
{
    let r = dedent(f, owner, uid).unwrap();
    lemma_occurs(f, uid);
    lemma_occurs(f[0].children, uid);
    lemma_occurs(f.skip(1), uid);
    crate::order::lemma_strict_rest(f);
    crate::order::lemma_strict_is_ranked(f);
    lemma_parent_pos_range(f, uid);
    let rest = f.skip(1);
    if f[0].uid == uid {
        lemma_absent_ops(f[0].children, f[0].uid, uid);
        lemma_absent_ops(rest, owner, uid);
    } else if occurrences(f[0].children, uid) == 0 {
        // The block stands in the rest of the list, or below it.
        lemma_absent_ops(f[0].children, f[0].uid, uid);
        lemma_dedent_after_first(f, owner, uid);
        let inner = dedent(rest, owner, uid).unwrap();
        lemma_dedent_parent_there(rest, owner, uid);
        lemma_occurs(f[0].children, r.1);
        lemma_occurs(rest, r.1);
        lemma_parent_pos_range(rest, uid);
        lemma_dedent_is_move(rest, owner, uid);
        let gone = remove_below(rest, uid);
        assert(remove(rest, uid) == gone);
        let h = seq![f[0]] + gone;
        assert(remove(f, uid) == h);
        assert(h.skip(1) =~= gone);
        assert(h[0] == f[0]);
        let b = find(rest, uid).unwrap();
        let moved = BlockView { order: r.2, ..b };
        match parent_pos(rest, uid) {
            Some(q) => {
                assert(rest[q] == f[q + 1]);
                assert(f[0].order < f[q + 1].order);
                crate::blocks::lemma_insert_pos(gone, r.2);
                assert(h.insert(1 + insert_pos(gone, r.2), moved) =~= seq![f[0]] + gone.insert(
                    insert_pos(gone, r.2),
                    moved,
                ));
                assert forall|i: int| 0 <= i < f.len() implies (#[trigger] f[i]).order
                    == h[i].order by {
                    if i > 0 {
                        assert(rest[i - 1] == f[i]);
                        assert(h[i] == gone[i - 1]);
                    }
                }
            },
            None => {},
        }
    } else {
        // The block stands below the first block of the list.
        let c = f[0].children;
        lemma_absent_ops(rest, owner, uid);
        crate::blocks::lemma_sibling_pos(f, uid);
        lemma_none_at(rest, uid);
        assert(sibling_pos(f, uid) is None) by {
            assert forall|j: int| 0 <= j < f.len() implies f[j].uid != uid by {
                if j > 0 {
                    assert(rest[j - 1] == f[j]);
                }
            }
            lemma_no_top(f, uid);
        }
        let h = f.update(0, BlockView { children: remove(c, uid), ..f[0] });
        assert(remove(f, uid) == h);
        if sibling_pos(c, uid) is Some {
            // It is a sub-block of the first block: the list itself takes it.
            lemma_top_found(c, f[0].uid, uid);
            let k = sibling_pos(c, uid).unwrap();
            let moved = BlockView { order: f[0].order + 1, ..c[k] };
            assert(remove(c, uid) == c.remove(k));
            crate::blocks::lemma_insert_pos(h, f[0].order + 1);
            let at = insert_pos(h, f[0].order + 1);
            assert(h[0].order == f[0].order);
            if at > 1 {
                assert(h[1] == f[1]);
                assert(f[0].order < f[1].order);
            }
            assert(at == 1);
        } else {
            lemma_dedent_parent_there(c, f[0].uid, uid);
            lemma_parent_pos_range(c, uid);
            let inner = dedent(c, f[0].uid, uid).unwrap();
            lemma_occurs(c, r.1);
            lemma_occurs(rest, r.1);
            lemma_dedent_is_move(c, f[0].uid, uid);
            lemma_top_is_there(h, 0);
        }
    }
}

/// Dedenting a block of the pages is moving it below the parent of its
/// parent, with the order after that of its parent. This is said of pages of
/// which no two sibling blocks have the same order, where the uid of the
/// block occurs once and the uid of the new parent names one thing.
pub proof fn lemma_doc_dedent_is_move(days: Seq<DailyNoteView>, uid: Seq<char>)
    requires
        pages_strictly_ranked(days),
        occurrences_in_days(days, uid) == 1,
        doc_dedent(days, uid) is Some,
        names_one(days, doc_dedent(days, uid).unwrap().1),
    ensures
        doc_find(days, uid) is Some,
        doc_has_parent(doc_remove(days, uid), doc_dedent(days, uid).unwrap().1),
        doc_dedent(days, uid).unwrap().0 == doc_move(
            days,
            uid,
            doc_dedent(days, uid).unwrap().1,
            doc_dedent(days, uid).unwrap().2,
        ),
{
    lemma_first_day_is(days, can_dedent(uid));
    let i = first_day(days, can_dedent(uid)).unwrap();
    let f = days[i].blocks;
    let owner = days[i].uid;
    if !contains(f, uid) {
        lemma_occurs(f, uid);
        lemma_absent_ops(f, owner, uid);
    }
    lemma_single_day(days, uid, i);
    let r = dedent(f, owner, uid).unwrap();
    lemma_dedent_parent_there(f, owner, uid);
    lemma_occurs(f, r.1);
    lemma_occurs_day(days, r.1, i);
    lemma_pages_named(days, r.1, i);
    lemma_dedent_is_move(f, owner, uid);
    let b = find(f, uid).unwrap();
    let moved = BlockView { order: r.2, ..b };
    let rest = days.update(i, with_blocks(days[i], remove(f, uid)));
    assert(doc_remove(days, uid) == rest);
    if parent_pos(f, uid) is Some {
        // The page takes the block: no block carries the uid of the page.
        lemma_absent_in_days(days, r.1);
        assert(is_first(rest, takes(r.1), i)) by {
            assert(takes(r.1)(rest[i]));
            assert forall|k: int| 0 <= k < i implies !#[trigger] takes(r.1)(rest[k]) by {
                assert(rest[k] == days[k]);
                assert(!holds(r.1)(days[k]));
            }
        }
        lemma_first_day(rest, takes(r.1), i);
        assert(doc_insert(rest, r.1, r.2, moved) =~= days.update(i, with_blocks(days[i], r.0)));
    } else {
        lemma_single_day(days, r.1, i);
        assert forall|k: int| 0 <= k < days.len() implies days[k].uid != r.1 by {
            lemma_pages_named(days, r.1, k);
        }
        assert(is_first(rest, takes(r.1), i)) by {
            assert(takes(r.1)(rest[i]));
            assert forall|k: int| 0 <= k < i implies !#[trigger] takes(r.1)(rest[k]) by {
                assert(rest[k] == days[k]);
                assert(!holds(r.1)(days[k]));
            }
        }
        lemma_first_day(rest, takes(r.1), i);
        assert(doc_insert(rest, r.1, r.2, moved) =~= days.update(i, with_blocks(days[i], r.0)));
    }
}

/// Dedenting the block that is being edited, taking the move back and doing
/// it again gives the state after the dedent: the pages, the cursor and both
/// stacks; the column of the cursor is 0. This is said of a block that is
/// shown and not being created, in pages of which no two sibling blocks have
/// the same order, where the uid of the block occurs once and the uid of its
/// new parent names one thing.
pub proof fn law_dedent_undo_redo(s: AppStateView)
    requires
        edited_block(s.input_mode) matches Some(edit) && !edit.1 && occurrences_in_days(
            s.days,
            edit.0,
        ) == 1 && index_in_days(s.days, s.linked_refs, edit.0) is Some && (doc_dedent(
            s.days,
            edit.0,
        ) matches Some(r) && names_one(s.days, r.1)),
        pages_strictly_ranked(s.days),
    ensures
        redone(undone(dedented(s))) == (AppStateView { cursor_col: 0, ..dedented(s) }),
        dedented(s).undo_stack.len() == s.undo_stack.len() + 1,
        undone(dedented(s)).selected_block == s.selected_block,
{
    let uid = edited_block(s.input_mode).unwrap().0;
    law_index_round_trip(s.days, s.linked_refs, uid);
    let k = index_in_days(s.days, s.linked_refs, uid).unwrap();
    let (j, t) = lemma_row_day(s.days, s.linked_refs, k);
    let f = s.days[j].blocks;
    lemma_row_contains(f, s.days[j].uid, 0, t);
    lemma_single_day(s.days, uid, j);
    lemma_row_parent(f, s.days[j].uid, 0, t);
    lemma_doc_dedent_is_move(s.days, uid);
    let r = doc_dedent(s.days, uid).unwrap();
    let base = AppStateView { redo_stack: Seq::empty(), ..s };
    let cursor = dedented(s).selected_block;
    assert(dedented(s) == just_moved(base, uid, r.1, r.2, cursor));
    law_move_undo_redo(base, uid, r.1, r.2, cursor);
}

/// Giving a text to a block that has just been put in is putting the block
/// in with that text. This is said of a block with a uid that no block
/// carried, put below a block of the list.
pub proof fn lemma_insert_then_text(
    f: Seq<BlockView>,
    parent: Seq<char>,
    order: int,
    b: BlockView,
    text: Seq<char>,
)
    requires
        occurrences(f, b.uid) == 0,
        contains(f, parent),
    ensures
        update_first(update_first(f, parent, with_child(order, b)), b.uid, with_text(text))
            == update_first(f, parent, with_child(order, BlockView { text: text, ..b })),
    decreases f,
{
    let named = BlockView { text: text, ..b };
    let put = update_first(f, parent, with_child(order, b));
    lemma_occurs(f, b.uid);
    lemma_occurs(f, parent);
    lemma_occurs(f[0].children, b.uid);
    lemma_occurs(f.skip(1), b.uid);
    if f[0].uid == parent {
        let c = f[0].children;
        let k = insert_pos(c, order);
        crate::blocks::lemma_insert_pos(c, order);
        let with_it = c.insert(k, b);
        lemma_insert_found(c, k, b, parent);
        lemma_none_at(c, b.uid);
        assert forall|j: int| 0 <= j < k implies free_of(#[trigger] with_it[j], b.uid) by {
            assert(with_it[j] == c[j]);
        }
        lemma_update_at(with_it, b.uid, k, with_text(text));
        assert(with_it.update(k, named) =~= c.insert(k, named));
        assert(put[0].children == with_it);
    } else if contains(f[0].children, parent) {
        let c = f[0].children;
        lemma_insert_then_remove(c, parent, order, b, f[0].uid);
        lemma_insert_then_text(c, parent, order, b, text);
        assert(put[0].children == update_first(c, parent, with_child(order, b)));
    } else {
        let rest = f.skip(1);
        lemma_insert_then_text(rest, parent, order, b, text);
        assert(put.skip(1) =~= update_first(rest, parent, with_child(order, b)));
        assert(put[0] == f[0]);
    }
}

/// Giving a text to a block that has just been put into the pages is putting
/// the block in with that text. This is said of a block with a uid that no
/// block carried, put below a parent that is there.
pub proof fn lemma_doc_insert_then_text(
    days: Seq<DailyNoteView>,
    parent: Seq<char>,
    order: int,
    b: BlockView,
    text: Seq<char>,
)
    requires
        occurrences_in_days(days, b.uid) == 0,
        doc_has_parent(days, parent),
    ensures
        doc_update(doc_insert(days, parent, order, b), b.uid, with_text(text)) == doc_insert(
            days,
            parent,
            order,
            BlockView { text: text, ..b },
        ),
{
    let named = BlockView { text: text, ..b };
    lemma_first_day_is(days, takes(parent));
    let i = first_day(days, takes(parent)).unwrap();
    let f = days[i].blocks;
    lemma_absent_in_days(days, b.uid);
    assert(!holds(b.uid)(days[i]));
    lemma_occurs(f, b.uid);
    let put = doc_insert(days, parent, order, b);
    if days[i].uid == parent {
        let k = insert_pos(f, order);
        crate::blocks::lemma_insert_pos(f, order);
        let with_it = f.insert(k, b);
        lemma_insert_found(f, k, b, parent);
        lemma_none_at(f, b.uid);
        assert forall|j: int| 0 <= j < k implies free_of(#[trigger] with_it[j], b.uid) by {
            assert(with_it[j] == f[j]);
        }
        lemma_update_at(with_it, b.uid, k, with_text(text));
        assert(with_it.update(k, named) =~= f.insert(k, named));
    } else {
        lemma_insert_then_remove(f, parent, order, b, days[i].uid);
        lemma_insert_then_text(f, parent, order, b, text);
    }
    assert(is_first(put, holds(b.uid), i)) by {
        assert(holds(b.uid)(put[i]));
        assert forall|k: int| 0 <= k < i implies !#[trigger] holds(b.uid)(put[k]) by {
            assert(put[k] == days[k]);
            assert(!holds(b.uid)(days[k]));
        }
    }
    lemma_first_day(put, holds(b.uid), i);
    assert(doc_update(put, b.uid, with_text(text)) =~= doc_insert(days, parent, order, named));
}

/// Creating a block after the block under the cursor, giving it a text,
/// taking the creation back and doing it again gives the state after the
/// creation: the pages, the cursor and both stacks; the column of the cursor
/// is 0. Taking the creation back gives the pages as they were before it.
/// This is said where the cursor stands on a block whose uid occurs once,
/// and the new uid is carried by no block.
pub proof fn law_create_block_undo_redo(s: AppStateView, uid: Seq<char>, buffer: BufferView)
    requires
        row_in_days(s.days, s.linked_refs, s.selected_block) matches Some(info)
            && occurrences_in_days(s.days, info.block_uid) == 1 && info.order + 1 <= max_order(),
        occurrences_in_days(s.days, uid) == 0,
        buffer.chars.len() > 0,
    ensures
        ({
            let made = finalized(
                AppStateView {
                    input_mode: with_buffer(created(s, uid).input_mode, buffer),
                    ..created(s, uid)
                },
            );
            &&& made.undo_stack == s.undo_stack.push(UndoView::CreateBlock { block_uid: uid })
            &&& undone(made).days == s.days
            &&& redone(undone(made)) == (AppStateView { cursor_col: 0, ..made })
        }),
{
    let info = row_in_days(s.days, s.linked_refs, s.selected_block).unwrap();
    law_every_row_shows_one_thing(s.days, s.linked_refs, s.selected_block);
    let (j, t) = lemma_row_day(s.days, s.linked_refs, s.selected_block);
    let f = s.days[j].blocks;
    lemma_row_contains(f, s.days[j].uid, 0, t);
    lemma_single_day(s.days, info.block_uid, j);
    lemma_row_parent(f, s.days[j].uid, 0, t);
    // The parent of the block under the cursor is there.
    if sibling_pos(f, info.block_uid) is Some {
        lemma_top_found(f, s.days[j].uid, info.block_uid);
    } else {
        lemma_parent_in_list(f, s.days[j].uid, info.block_uid);
    }
    assert(takes(info.parent_uid)(s.days[j]));
    crate::doc::lemma_least(s.days, takes(info.parent_uid), j);
    let order = info.order + 1;
    let empty = placeholder(uid, order);
    let named = BlockView { text: buffer.chars, ..empty };
    lemma_doc_insert_then_text(s.days, info.parent_uid, order, empty, buffer.chars);
    let begun = created(s, uid);
    let typed = AppStateView { input_mode: with_buffer(begun.input_mode, buffer), ..begun };
    let made = finalized(typed);
    let base = AppStateView {
        days: s.days,
        redo_stack: Seq::empty(),
        input_mode: InputView::Normal,
        ..begun
    };
    assert(made == just_created(base, info.parent_uid, named));
    law_create_undo_redo(base, info.parent_uid, named);
}

} // verus!

use crate::blocks::{
    find_block_in_days, find_block_parent_info, insert_block_in_days, move_block_in_days,
    remove_block_from_days, resolve_block_at_index, update_block_text_in_days,
};
use crate::bounds::{doc_size, lemma_doc_remove_size, lemma_rows_le_size};
use crate::doc::{
    doc_find, doc_insert, doc_move, doc_parent_info, doc_remove, doc_update, flat_count,
    row_in_days,
};
use crate::state::{AppState, AppStateView, LinkedRefsView, UndoEntry, UndoView};
use crate::tree::with_text;
use crate::types::{
    BlockLocation, BlockRef, BlockUpdate, DailyNoteView, NewBlock, OrderValue, OrderView,
    WriteAction, WriteView,
};
use vstd::prelude::*;

verus! {

/// What taking back one step does: the pages and the cursor afterwards,
/// whether the column of the cursor is reset, the step that takes this one
/// back in turn, and what the remote service is asked to do.
pub struct UndoOutcome {
    pub days: Seq<DailyNoteView>,
    pub selected_block: nat,
    pub reset_col: bool,
    pub inverse: UndoView,
    pub write: WriteView,
}

/// The cursor after a block has gone: on the last visible block where it
/// stood past it.
pub open spec fn clamped(selected: nat, total: nat) -> nat {
    if selected >= total && total > 0 {
        (total - 1) as nat
    } else {
        selected
    }
}

/// The text that the block `uid` has now: that of the row under the cursor
/// where that row shows the block, else that of the first block that carries
/// `uid`, and nothing where there is none.
pub open spec fn current_text(
    days: Seq<DailyNoteView>,
    lr: Seq<(Seq<char>, LinkedRefsView)>,
    selected: nat,
    uid: Seq<char>,
) -> Seq<char> {
    match row_in_days(days, lr, selected) {
        Some(row) => if row.block_uid == uid {
            row.text
        } else {
            match doc_find(days, uid) {
                Some(b) => b.text,
                None => Seq::empty(),
            }
        },
        None => match doc_find(days, uid) {
            Some(b) => b.text,
            None => Seq::empty(),
        },
    }
}

/// What taking back the step `entry` does to the pages `days` with the cursor
/// on row `selected`.
pub open spec fn undo_outcome(
    days: Seq<DailyNoteView>,
    lr: Seq<(Seq<char>, LinkedRefsView)>,
    selected: nat,
    entry: UndoView,
) -> UndoOutcome {
    match entry {
        UndoView::TextEdit { block_uid, old_text } => UndoOutcome {
            days: doc_update(days, block_uid, with_text(old_text)),
            selected_block: selected,
            reset_col: false,
            inverse: UndoView::TextEdit {
                block_uid: block_uid,
                old_text: current_text(days, lr, selected, block_uid),
            },
            write: WriteView::Update { uid: block_uid, text: old_text },
        },
        UndoView::CreateBlock { block_uid } => UndoOutcome {
            days: doc_remove(days, block_uid),
            selected_block: clamped(selected, flat_count(doc_remove(days, block_uid))),
            reset_col: true,
            inverse: match doc_find(days, block_uid) {
                Some(b) => match doc_parent_info(days, block_uid) {
                    Some(p) => UndoView::DeleteBlock {
                        block: b,
                        parent_uid: p.0,
                        order: p.1,
                        selected_block: selected,
                    },
                    None => UndoView::CreateBlock { block_uid: block_uid },
                },
                None => UndoView::CreateBlock { block_uid: block_uid },
            },
            write: WriteView::Delete { uid: block_uid },
        },
        UndoView::DeleteBlock { block, parent_uid, order, selected_block } => UndoOutcome {
            days: doc_insert(days, parent_uid, order, block),
            selected_block: selected_block,
            reset_col: true,
            inverse: UndoView::CreateBlock { block_uid: block.uid },
            write: WriteView::Create {
                parent_uid: parent_uid,
                order: OrderView::Index(order),
                text: block.text,
                uid: Some(block.uid),
                open: None,
            },
        },
        UndoView::MoveBlock { block_uid, old_parent_uid, old_order, selected_block } => UndoOutcome {
            days: doc_move(days, block_uid, old_parent_uid, old_order),
            selected_block: selected_block,
            reset_col: true,
            inverse: match doc_parent_info(days, block_uid) {
                Some(p) => UndoView::MoveBlock {
                    block_uid: block_uid,
                    old_parent_uid: p.0,
                    old_order: p.1,
                    selected_block: selected,
                },
                None => UndoView::MoveBlock {
                    block_uid: block_uid,
                    old_parent_uid: old_parent_uid,
                    old_order: old_order,
                    selected_block: selected_block,
                },
            },
            write: WriteView::Move {
                uid: block_uid,
                parent_uid: old_parent_uid,
                order: OrderView::Index(old_order),
            },
        },
    }
}

/// The state after the step `entry` has been taken back, stacks apart.
pub open spec fn with_outcome(s: AppStateView, out: UndoOutcome) -> AppStateView {
    AppStateView {
        days: out.days,
        selected_block: out.selected_block,
        cursor_col: if out.reset_col {
            0
        } else {
            s.cursor_col
        },
        ..s
    }
}

/// The state after the newest step of the undo stack has been taken back:
/// the step moves, turned round, to the redo stack. Nothing changes where
/// there is no step.
pub open spec fn undone(s: AppStateView) -> AppStateView {
    if s.undo_stack.len() == 0 {
        s
    } else {
        let out = undo_outcome(s.days, s.linked_refs, s.selected_block, s.undo_stack.last());
        AppStateView {
            undo_stack: s.undo_stack.drop_last(),
            redo_stack: s.redo_stack.push(out.inverse),
            ..with_outcome(s, out)
        }
    }
}

/// The state after the newest step of the redo stack has been done again:
/// the step moves, turned round, to the undo stack. Nothing changes where
/// there is no step.
pub open spec fn redone(s: AppStateView) -> AppStateView {
    if s.redo_stack.len() == 0 {
        s
    } else {
        let out = undo_outcome(s.days, s.linked_refs, s.selected_block, s.redo_stack.last());
        AppStateView {
            redo_stack: s.redo_stack.drop_last(),
            undo_stack: s.undo_stack.push(out.inverse),
            ..with_outcome(s, out)
        }
    }
}

/// Takes the step `entry` back. Returns the step that takes this one back in
/// turn, and what the remote service is to be asked.
pub fn apply_undo_entry(state: &mut AppState, entry: UndoEntry) -> (r: (UndoEntry, WriteAction))
    requires
        doc_size(old(state)@.days, old(state)@.linked_refs) <= usize::MAX,
    ensures
        final(state)@ == with_outcome(
            old(state)@,
            undo_outcome(
                old(state)@.days,
                old(state)@.linked_refs,
                old(state)@.selected_block,
                entry@,
            ),
        ),
        r.0@ == undo_outcome(
            old(state)@.days,
            old(state)@.linked_refs,
            old(state)@.selected_block,
            entry@,
        ).inverse,
        r.1@ == undo_outcome(
            old(state)@.days,
            old(state)@.linked_refs,
            old(state)@.selected_block,
            entry@,
        ).write,
{
    proof {
        lemma_rows_le_size(state@.days, state@.linked_refs);
    }
    match entry {
        UndoEntry::TextEdit { block_uid, old_text } => {
            let under_cursor = resolve_block_at_index(
                &state.days,
                &state.linked_refs,
                state.selected_block,
            );
            let mut current: Option<String> = None;
            match under_cursor {
                Some(info) => {
                    if info.block_uid == block_uid {
                        current = Some(info.text);
                    }
                },
                None => {},
            }
            let current_text = match current {
                Some(t) => t,
                None => match find_block_in_days(&state.days, block_uid.as_str()) {
                    Some(b) => b.string,
                    None => String::new(),
                },
            };
            update_block_text_in_days(&mut state.days, block_uid.as_str(), old_text.as_str());
            let redo = UndoEntry::TextEdit { block_uid: block_uid.clone(), old_text: current_text };
            let write = WriteAction::UpdateBlock {
                block: BlockUpdate { uid: block_uid, string: old_text },
            };
            (redo, write)
        },
        UndoEntry::CreateBlock { block_uid } => {
            let block = find_block_in_days(&state.days, block_uid.as_str());
            let parent_info = find_block_parent_info(&state.days, block_uid.as_str());
            let saved_selected = state.selected_block;
            proof {
                lemma_doc_remove_size(state@.days, state@.linked_refs, block_uid@);
                lemma_rows_le_size(doc_remove(state@.days, block_uid@), state@.linked_refs);
            }
            remove_block_from_days(&mut state.days, block_uid.as_str());
            let total = state.flat_block_count();
            if state.selected_block >= total && total > 0 {
                state.selected_block = total - 1;
            }
            state.cursor_col = 0;
            let redo = match block {
                Some(b) => match parent_info {
                    Some(p) => UndoEntry::DeleteBlock {
                        block: b,
                        parent_uid: p.0,
                        order: p.1,
                        selected_block: saved_selected,
                    },
                    None => UndoEntry::CreateBlock { block_uid: block_uid.clone() },
                },
                None => UndoEntry::CreateBlock { block_uid: block_uid.clone() },
            };
            let write = WriteAction::DeleteBlock { block: BlockRef { uid: block_uid } };
            (redo, write)
        },
        UndoEntry::DeleteBlock { block, parent_uid, order, selected_block } => {
            let uid = block.uid.clone();
            let text = block.string.clone();
            insert_block_in_days(&mut state.days, parent_uid.as_str(), order, block);
            state.selected_block = selected_block;
            state.cursor_col = 0;
            let redo = UndoEntry::CreateBlock { block_uid: uid.clone() };
            let write = WriteAction::CreateBlock {
                location: BlockLocation { parent_uid, order: OrderValue::Index(order) },
                block: NewBlock { string: text, uid: Some(uid), open: None },
            };
            (redo, write)
        },
        UndoEntry::MoveBlock { block_uid, old_parent_uid, old_order, selected_block } => {
            let current_parent_info = find_block_parent_info(&state.days, block_uid.as_str());
            let current_selected = state.selected_block;
            move_block_in_days(
                &mut state.days,
                block_uid.as_str(),
                old_parent_uid.as_str(),
                old_order,
            );
            state.selected_block = selected_block;
            state.cursor_col = 0;
            let redo = match current_parent_info {
                Some(p) => UndoEntry::MoveBlock {
                    block_uid: block_uid.clone(),
                    old_parent_uid: p.0,
                    old_order: p.1,
                    selected_block: current_selected,
                },
                None => UndoEntry::MoveBlock {
                    block_uid: block_uid.clone(),
                    old_parent_uid: old_parent_uid.clone(),
                    old_order,
                    selected_block,
                },
            };
            let write = WriteAction::MoveBlock {
                block: BlockRef { uid: block_uid },
                location: BlockLocation {
                    parent_uid: old_parent_uid,
                    order: OrderValue::Index(old_order),
                },
            };
            (redo, write)
        },
    }
}

/// Takes back the newest step that can be undone. Returns what the remote
/// service is to be asked, and nothing where there is no such step.
pub fn apply_undo(state: &mut AppState) -> (r: Option<WriteAction>)
    requires
        doc_size(old(state)@.days, old(state)@.linked_refs) <= usize::MAX,
    ensures
        final(state)@ == undone(old(state)@),
        r is Some <==> old(state)@.undo_stack.len() > 0,
        r matches Some(w) ==> w@ == undo_outcome(
            old(state)@.days,
            old(state)@.linked_refs,
            old(state)@.selected_block,
            old(state)@.undo_stack.last(),
        ).write,
{
    let ghost before = state@;
    match state.undo_stack.pop() {
        Some(entry) => {
            proof {
                assert(state@.undo_stack =~= before.undo_stack.drop_last());
                assert(entry@ == before.undo_stack.last());
            }
            let ghost mid = state@;
            let (redo_entry, write_action) = apply_undo_entry(state, entry);
            let ghost mid2 = state@;
            state.redo_stack.push(redo_entry);
            proof {
                assert(state@.redo_stack =~= before.redo_stack.push(redo_entry@));
                assert(state@ == undone(before));
            }
            Some(write_action)
        },
        None => {
            assert(state@.undo_stack =~= before.undo_stack);
            None
        },
    }
}

/// Does again the newest step that was taken back. Returns what the remote
/// service is to be asked, and nothing where there is no such step.
pub fn apply_redo(state: &mut AppState) -> (r: Option<WriteAction>)
    requires
        doc_size(old(state)@.days, old(state)@.linked_refs) <= usize::MAX,
    ensures
        final(state)@ == redone(old(state)@),
        r is Some <==> old(state)@.redo_stack.len() > 0,
        r matches Some(w) ==> w@ == undo_outcome(
            old(state)@.days,
            old(state)@.linked_refs,
            old(state)@.selected_block,
            old(state)@.redo_stack.last(),
        ).write,
{
    let ghost before = state@;
    match state.redo_stack.pop() {
        Some(entry) => {
            proof {
                assert(state@.redo_stack =~= before.redo_stack.drop_last());
                assert(entry@ == before.redo_stack.last());
            }
            let (undo_entry, write_action) = apply_undo_entry(state, entry);
            state.undo_stack.push(undo_entry);
            proof {
                assert(state@.undo_stack =~= before.undo_stack.push(undo_entry@));
                assert(state@ == redone(before));
            }
            Some(write_action)
        },
        None => {
            assert(state@.redo_stack =~= before.redo_stack);
            None
        },
    }
}

} // verus!

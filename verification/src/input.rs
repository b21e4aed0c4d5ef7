use crate::blocks::{
    dedent_block_in_days, find_block_in_days, find_block_index_by_uid, indent_block_in_days,
    remove_block_from_days, resolve_block_at_index, update_block_text_in_days,
};
use crate::bounds::{
    doc_size, lemma_doc_dedent_size, lemma_doc_remove_size, lemma_rows_le_size, sound,
};
use crate::date::{some_day, spare_day, Date};
use crate::doc::{
    doc_dedent, doc_find, doc_indent, doc_remove, doc_update, flat_count, index_in_days,
    ref_item_in_days, row_in_days,
};
use crate::edit_buffer::{BufferView, EditBuffer};
use crate::keys::{mods_control, mods_none, mods_shift, KeyCode, KeyEvent};
use crate::nav::{navigate_to_page, navigated};
use crate::search::{
    at_block_ref, detect_block_ref_trigger, filter_blocks, found, AUTOCOMPLETE_LIMIT, SEARCH_LIMIT,
};
use crate::slash::{
    all_commands, command_list, detect_trigger, execute_at, executed, filter, kept, needs_clock,
    slash_at, uses_clock, SlashMenuState, SlashMenuView,
};
use crate::state::{
    AppState, AppStateView, AutocompleteState, CreateInfo, InputMode, InputView, LinkPickerView,
    LoadRequest, LoadView, PickView, UndoEntry, UndoView,
};
use crate::text::{lowercase, pop_char, push_char, push_str};
use crate::tree::{with_text, RowView};
use crate::types::{
    BlockLocation, BlockRef, BlockUpdate, NewBlock, OrderValue, OrderView, WriteAction, WriteView,
};
use vstd::prelude::*;

verus! {

/// The cursor after a block has gone: on the last visible block where it
/// stood past it, and on the first row where no block is left.
pub open spec fn clamped_to(selected: nat, total: nat) -> nat {
    if total == 0 {
        0
    } else if selected >= total {
        (total - 1) as nat
    } else {
        selected
    }
}

/// The state after the edit session has ended. An edit that left the text
/// as it was changes nothing: the steps that were taken back can still be
/// done again. An edit that changed the text is kept and can be undone; a
/// block that was being created is kept with its text and can be undone, or
/// is dropped where its text is empty. After either, the steps that were
/// taken back can no longer be done again.
pub open spec fn finalized(s: AppStateView) -> AppStateView {
    match s.input_mode {
        InputView::Normal => s,
        InputView::Insert { buffer, block_uid, original_text, create_info } => {
            let ended = AppStateView { input_mode: InputView::Normal, ..s };
            if create_info is Some {
                if buffer.chars.len() == 0 {
                    let days = doc_remove(s.days, block_uid);
                    AppStateView {
                        redo_stack: Seq::empty(),
                        days: days,
                        selected_block: clamped_to(s.selected_block, flat_count(days)),
                        ..ended
                    }
                } else {
                    AppStateView {
                        redo_stack: Seq::empty(),
                        undo_stack: s.undo_stack.push(UndoView::CreateBlock { block_uid: block_uid }),
                        days: doc_update(s.days, block_uid, with_text(buffer.chars)),
                        ..ended
                    }
                }
            } else if buffer.chars == original_text {
                ended
            } else {
                AppStateView {
                    redo_stack: Seq::empty(),
                    undo_stack: s.undo_stack.push(
                        UndoView::TextEdit { block_uid: block_uid, old_text: original_text },
                    ),
                    days: doc_update(s.days, block_uid, with_text(buffer.chars)),
                    ..ended
                }
            }
        },
    }
}

/// What the remote service is asked when the edit session ends: to create
/// the new block with its uid, to take the new text of an edited block, and
/// nothing where nothing is kept.
pub open spec fn finalize_write(s: AppStateView) -> Option<WriteView> {
    match s.input_mode {
        InputView::Normal => None,
        InputView::Insert { buffer, block_uid, original_text, create_info } => match create_info {
            Some(info) => if buffer.chars.len() == 0 {
                None
            } else {
                Some(
                    WriteView::Create {
                        parent_uid: info.0,
                        order: OrderView::Index(info.1),
                        text: buffer.chars,
                        uid: Some(block_uid),
                        open: None,
                    },
                )
            },
            None => if buffer.chars == original_text {
                None
            } else {
                Some(WriteView::Update { uid: block_uid, text: buffer.chars })
            },
        },
    }
}

/// Ends the edit session. Returns what the remote service is to be asked.
pub fn finalize_insert(state: &mut AppState) -> (r: Option<WriteAction>)
    requires
        sound(old(state)@),
    ensures
        final(state)@ == finalized(old(state)@),
        match r {
            Some(w) => finalize_write(old(state)@) == Some(w@),
            None => finalize_write(old(state)@) is None,
        },
{
    let ghost before = state@;
    let mut mode = InputMode::Normal;
    std::mem::swap(&mut state.input_mode, &mut mode);
    match mode {
        InputMode::Normal => None,
        InputMode::Insert { buffer, block_uid, original_text, create_info } => {
            let new_text = buffer.to_string();
            match create_info {
                Some(info) => {
                    state.redo_stack.clear();
                    proof {
                        assert(state@.redo_stack =~= Seq::<UndoView>::empty());
                    }
                    if !new_text.as_str().is_empty() {
                        state.undo_stack.push(UndoEntry::CreateBlock { block_uid: block_uid.clone() });
                        proof {
                            assert(state@.undo_stack =~= before.undo_stack.push(
                                UndoView::CreateBlock { block_uid: block_uid@ },
                            ));
                        }
                    }
                    finalize_create(state, info, block_uid, new_text)
                },
                None => {
                    if new_text != original_text {
                        state.redo_stack.clear();
                        proof {
                            assert(state@.redo_stack =~= Seq::<UndoView>::empty());
                        }
                        state.undo_stack.push(
                            UndoEntry::TextEdit {
                                block_uid: block_uid.clone(),
                                old_text: original_text.clone(),
                            },
                        );
                        proof {
                            assert(state@.undo_stack =~= before.undo_stack.push(
                                UndoView::TextEdit {
                                    block_uid: block_uid@,
                                    old_text: original_text@,
                                },
                            ));
                        }
                    }
                    finalize_edit(&mut state.days, block_uid, original_text.as_str(), new_text)
                },
            }
        },
    }
}

/// Ends the creation of the block `block_uid`: with an empty text the block
/// is dropped and the cursor kept within the rows; else the block takes the
/// text, and the remote service is asked to create it.
pub fn finalize_create(
    state: &mut AppState,
    info: CreateInfo,
    block_uid: String,
    new_text: String,
) -> (r: Option<WriteAction>)
    requires
        doc_size(old(state)@.days, old(state)@.linked_refs) <= usize::MAX,
    ensures
        new_text@.len() == 0 ==> r is None && final(state)@ == (AppStateView {
            days: doc_remove(old(state)@.days, block_uid@),
            selected_block: clamped_to(
                old(state)@.selected_block,
                flat_count(doc_remove(old(state)@.days, block_uid@)),
            ),
            ..old(state)@
        }),
        new_text@.len() > 0 ==> final(state)@ == (AppStateView {
            days: doc_update(old(state)@.days, block_uid@, with_text(new_text@)),
            ..old(state)@
        }),
        new_text@.len() > 0 ==> (r matches Some(w) && w@ == (WriteView::Create {
            parent_uid: info.parent_uid@,
            order: OrderView::Index(info.order as int),
            text: new_text@,
            uid: Some(block_uid@),
            open: None,
        })),
{
    if new_text.as_str().is_empty() {
        proof {
            lemma_doc_remove_size(state@.days, state@.linked_refs, block_uid@);
            lemma_rows_le_size(doc_remove(state@.days, block_uid@), state@.linked_refs);
        }
        remove_block_from_days(&mut state.days, block_uid.as_str());
        let total = state.flat_block_count();
        if total == 0 {
            state.selected_block = 0;
        } else if state.selected_block >= total {
            state.selected_block = total - 1;
        }
        return None;
    }
    update_block_text_in_days(&mut state.days, block_uid.as_str(), new_text.as_str());
    Some(
        WriteAction::CreateBlock {
            location: BlockLocation {
                parent_uid: info.parent_uid,
                order: OrderValue::Index(info.order),
            },
            block: NewBlock { string: new_text, uid: Some(block_uid), open: None },
        },
    )
}

/// Ends the edit of the block `block_uid`: where the text has changed, the
/// block takes it and the remote service is asked to.
pub fn finalize_edit(
    days: &mut Vec<crate::types::DailyNote>,
    block_uid: String,
    original_text: &str,
    new_text: String,
) -> (r: Option<WriteAction>)
    ensures
        new_text@ == original_text@ ==> r is None && crate::types::days_view(final(days)@)
            == crate::types::days_view(old(days)@),
        new_text@ != original_text@ ==> crate::types::days_view(final(days)@) == doc_update(
            crate::types::days_view(old(days)@),
            block_uid@,
            with_text(new_text@),
        ),
        new_text@ != original_text@ ==> (r matches Some(w) && w@ == (WriteView::Update {
            uid: block_uid@,
            text: new_text@,
        })),
{
    if crate::text::str_eq(new_text.as_str(), original_text) {
        return None;
    }
    update_block_text_in_days(days, block_uid.as_str(), new_text.as_str());
    Some(WriteAction::UpdateBlock { block: BlockUpdate { uid: block_uid, string: new_text } })
}

/// The row that shows the block `uid` before it is moved: the row of the
/// first visible block that carries it, or the first row where none does.
pub open spec fn row_before_move(s: AppStateView, uid: Seq<char>) -> Option<RowView> {
    row_in_days(
        s.days,
        s.linked_refs,
        match index_in_days(s.days, s.linked_refs, uid) {
            Some(i) => i,
            None => 0,
        },
    )
}

/// The undo stack after the block `uid` has been moved away from where `row`
/// showed it, with the cursor on row `selected`.
pub open spec fn with_move_entry(
    stack: Seq<UndoView>,
    uid: Seq<char>,
    row: Option<RowView>,
    selected: nat,
) -> Seq<UndoView> {
    match row {
        Some(info) => stack.push(
            UndoView::MoveBlock {
                block_uid: uid,
                old_parent_uid: info.parent_uid,
                old_order: info.order,
                selected_block: selected,
            },
        ),
        None => stack,
    }
}

/// The edit session with the place `place` for the block that is being
/// created.
pub open spec fn with_create_place(mode: InputView, place: (Seq<char>, int)) -> InputView {
    match mode {
        InputView::Insert { buffer, block_uid, original_text, create_info } => InputView::Insert {
            buffer: buffer,
            block_uid: block_uid,
            original_text: original_text,
            create_info: match create_info {
                Some(_) => Some(place),
                None => None,
            },
        },
        InputView::Normal => mode,
    }
}

/// The uid of the block that is being edited, and whether it is being
/// created.
pub open spec fn edited_block(mode: InputView) -> Option<(Seq<char>, bool)> {
    match mode {
        InputView::Insert { block_uid, create_info, .. } => Some((block_uid, create_info is Some)),
        InputView::Normal => None,
    }
}

/// The state after the block that is being edited has been indented;
/// nothing changes where no block is being edited or the block cannot be
/// indented. A block that is being created is not yet known to the remote
/// service: only the place where it will be created changes. The move of any
/// other block can be undone. Once a block has moved, the steps that were
/// taken back can no longer be done again.
pub open spec fn indented(s: AppStateView) -> AppStateView {
    let base = AppStateView { redo_stack: Seq::empty(), ..s };
    match edited_block(s.input_mode) {
        None => s,
        Some((uid, creating)) => match doc_indent(s.days, uid) {
            None => s,
            Some((days, parent, order)) => if creating {
                AppStateView {
                    days: days,
                    input_mode: with_create_place(s.input_mode, (parent, order)),
                    ..base
                }
            } else {
                AppStateView {
                    days: days,
                    undo_stack: with_move_entry(
                        s.undo_stack,
                        uid,
                        row_before_move(s, uid),
                        s.selected_block,
                    ),
                    ..base
                }
            },
        },
    }
}

/// What the remote service is asked after an indent: to move the block to
/// the end of its new parent; nothing for a block that is being created.
pub open spec fn indent_write(s: AppStateView) -> Option<WriteView> {
    match edited_block(s.input_mode) {
        None => None,
        Some((uid, creating)) => match doc_indent(s.days, uid) {
            None => None,
            Some((days, parent, order)) => if creating {
                None
            } else {
                Some(
                    WriteView::Move {
                        uid: uid,
                        parent_uid: parent,
                        order: OrderView::Position("last"@),
                    },
                )
            },
        },
    }
}

/// The state after the block that is being edited has been dedented; the
/// cursor follows the block. Nothing changes where no block is being edited
/// or the block cannot be dedented. Once a block has moved, the steps that
/// were taken back can no longer be done again.
pub open spec fn dedented(s: AppStateView) -> AppStateView {
    let base = AppStateView { redo_stack: Seq::empty(), ..s };
    match edited_block(s.input_mode) {
        None => s,
        Some((uid, creating)) => match doc_dedent(s.days, uid) {
            None => s,
            Some((days, parent, order)) => {
                let selected = match index_in_days(days, s.linked_refs, uid) {
                    Some(i) => i,
                    None => s.selected_block,
                };
                if creating {
                    AppStateView {
                        days: days,
                        selected_block: selected,
                        input_mode: with_create_place(s.input_mode, (parent, order)),
                        ..base
                    }
                } else {
                    AppStateView {
                        days: days,
                        selected_block: selected,
                        undo_stack: with_move_entry(
                            s.undo_stack,
                            uid,
                            row_before_move(s, uid),
                            s.selected_block,
                        ),
                        ..base
                    }
                }
            },
        },
    }
}

/// What the remote service is asked after a dedent: to move the block to its
/// new order below its new parent; nothing for a block that is being
/// created.
pub open spec fn dedent_write(s: AppStateView) -> Option<WriteView> {
    match edited_block(s.input_mode) {
        None => None,
        Some((uid, creating)) => match doc_dedent(s.days, uid) {
            None => None,
            Some((days, parent, order)) => if creating {
                None
            } else {
                Some(WriteView::Move { uid: uid, parent_uid: parent, order: OrderView::Index(order) })
            },
        },
    }
}

/// Writes `parent_uid` and `order` as the place of the block that is being
/// created, if one is.
pub fn set_create_place(mode: &mut InputMode, parent_uid: String, order: i64)
    ensures
        final(mode)@ == with_create_place(old(mode)@, (parent_uid@, order as int)),
{
    match mode {
        InputMode::Insert { create_info, .. } => {
            match create_info {
                Some(info) => {
                    info.parent_uid = parent_uid;
                    info.order = order;
                },
                None => {},
            }
        },
        InputMode::Normal => {},
    }
}

/// The uid of the block that is being edited, and whether it is being
/// created.
pub fn current_edit(mode: &InputMode) -> (r: Option<(String, bool)>)
    ensures
        match r {
            Some(p) => edited_block(mode@) == Some((p.0@, p.1)),
            None => edited_block(mode@) is None,
        },
{
    match mode {
        InputMode::Insert { block_uid, create_info, .. } => Some(
            (block_uid.clone(), create_info.is_some()),
        ),
        InputMode::Normal => None,
    }
}

/// Indents the block that is being edited. Returns what the remote service
/// is to be asked.
pub fn handle_indent(state: &mut AppState) -> (r: Option<WriteAction>)
    requires
        sound(old(state)@),
    ensures
        final(state)@ == indented(old(state)@),
        match r {
            Some(w) => indent_write(old(state)@) == Some(w@),
            None => indent_write(old(state)@) is None,
        },
{
    let ghost before = state@;
    proof {
        lemma_rows_le_size(state@.days, state@.linked_refs);
    }
    let (block_uid, is_create) = match current_edit(&state.input_mode) {
        Some(p) => p,
        None => {
            return None;
        },
    };
    let index = match find_block_index_by_uid(&state.days, &state.linked_refs, block_uid.as_str()) {
        Some(i) => i,
        None => 0,
    };
    let old_info = resolve_block_at_index(&state.days, &state.linked_refs, index);
    let saved_selected = state.selected_block;
    let (new_parent_uid, new_order) = match indent_block_in_days(
        &mut state.days,
        block_uid.as_str(),
    ) {
        Some(p) => p,
        None => {
            return None;
        },
    };
    state.redo_stack.clear();
    proof {
        assert(state@.redo_stack =~= Seq::<UndoView>::empty());
    }
    if is_create {
        set_create_place(&mut state.input_mode, new_parent_uid, new_order);
        None
    } else {
        match old_info {
            Some(info) => {
                state.undo_stack.push(
                    UndoEntry::MoveBlock {
                        block_uid: block_uid.clone(),
                        old_parent_uid: info.parent_uid,
                        old_order: info.order,
                        selected_block: saved_selected,
                    },
                );
                proof {
                    assert(state@.undo_stack =~= with_move_entry(
                        before.undo_stack,
                        block_uid@,
                        row_before_move(before, block_uid@),
                        before.selected_block,
                    ));
                }
            },
            None => {},
        }
        proof {
            reveal_strlit("last");
        }
        Some(
            WriteAction::MoveBlock {
                block: BlockRef { uid: block_uid },
                location: BlockLocation {
                    parent_uid: new_parent_uid,
                    order: OrderValue::Position("last".to_owned()),
                },
            },
        )
    }
}

/// Dedents the block that is being edited. Returns what the remote service
/// is to be asked.
pub fn handle_dedent(state: &mut AppState) -> (r: Option<WriteAction>)
    requires
        sound(old(state)@),
    ensures
        final(state)@ == dedented(old(state)@),
        match r {
            Some(w) => dedent_write(old(state)@) == Some(w@),
            None => dedent_write(old(state)@) is None,
        },
{
    let ghost before = state@;
    proof {
        lemma_rows_le_size(state@.days, state@.linked_refs);
        lemma_doc_dedent_size(state@.days, state@.linked_refs, match edited_block(state@.input_mode) {
            Some(p) => p.0,
            None => Seq::empty(),
        });
    }
    let (block_uid, is_create) = match current_edit(&state.input_mode) {
        Some(p) => p,
        None => {
            return None;
        },
    };
    let index = match find_block_index_by_uid(&state.days, &state.linked_refs, block_uid.as_str()) {
        Some(i) => i,
        None => 0,
    };
    let old_info = resolve_block_at_index(&state.days, &state.linked_refs, index);
    let saved_selected = state.selected_block;
    let (new_parent_uid, new_order) = match dedent_block_in_days(
        &mut state.days,
        block_uid.as_str(),
    ) {
        Some(p) => p,
        None => {
            return None;
        },
    };
    state.redo_stack.clear();
    proof {
        assert(state@.redo_stack =~= Seq::<UndoView>::empty());
    }
    proof {
        lemma_rows_le_size(state@.days, state@.linked_refs);
    }
    match find_block_index_by_uid(&state.days, &state.linked_refs, block_uid.as_str()) {
        Some(idx) => {
            state.selected_block = idx;
        },
        None => {},
    }
    if is_create {
        set_create_place(&mut state.input_mode, new_parent_uid, new_order);
        None
    } else {
        match old_info {
            Some(info) => {
                state.undo_stack.push(
                    UndoEntry::MoveBlock {
                        block_uid: block_uid.clone(),
                        old_parent_uid: info.parent_uid,
                        old_order: info.order,
                        selected_block: saved_selected,
                    },
                );
                proof {
                    assert(state@.undo_stack =~= with_move_entry(
                        before.undo_stack,
                        block_uid@,
                        row_before_move(before, block_uid@),
                        before.selected_block,
                    ));
                }
            },
            None => {},
        }
        Some(
            WriteAction::MoveBlock {
                block: BlockRef { uid: block_uid },
                location: BlockLocation {
                    parent_uid: new_parent_uid,
                    order: OrderValue::Index(new_order),
                },
            },
        )
    }
}

/// The state after the block under the cursor has been deleted. Nothing
/// happens where the cursor stands on no block. The deletion can be undone;
/// the steps that were taken back can no longer be done again.
pub open spec fn deleted(s: AppStateView) -> AppStateView {
    if ref_item_in_days(s.days, s.linked_refs, s.selected_block) is Some {
        s
    } else {
        let base = AppStateView { redo_stack: Seq::empty(), ..s };
        match row_in_days(s.days, s.linked_refs, s.selected_block) {
            None => s,
            Some(info) => match doc_find(s.days, info.block_uid) {
                None => s,
                Some(block) => {
                    let days = doc_remove(s.days, info.block_uid);
                    AppStateView {
                        undo_stack: s.undo_stack.push(
                            UndoView::DeleteBlock {
                                block: block,
                                parent_uid: info.parent_uid,
                                order: info.order,
                                selected_block: s.selected_block,
                            },
                        ),
                        days: days,
                        selected_block: clamped_to(s.selected_block, flat_count(days)),
                        ..base
                    }
                },
            },
        }
    }
}

/// What the remote service is asked after a deletion.
pub open spec fn delete_write(s: AppStateView) -> Option<WriteView> {
    if ref_item_in_days(s.days, s.linked_refs, s.selected_block) is Some {
        None
    } else {
        match row_in_days(s.days, s.linked_refs, s.selected_block) {
            None => None,
            Some(info) => match doc_find(s.days, info.block_uid) {
                None => None,
                Some(block) => Some(WriteView::Delete { uid: info.block_uid }),
            },
        }
    }
}

/// Deletes the block under the cursor, with all that is below it. Returns
/// what the remote service is to be asked.
pub fn handle_delete_block(state: &mut AppState) -> (r: Option<WriteAction>)
    requires
        sound(old(state)@),
    ensures
        final(state)@ == deleted(old(state)@),
        match r {
            Some(w) => delete_write(old(state)@) == Some(w@),
            None => delete_write(old(state)@) is None,
        },
{
    let ghost before = state@;
    proof {
        lemma_rows_le_size(state@.days, state@.linked_refs);
    }
    if state.resolve_linked_ref_item(state.selected_block).is_some() {
        return None;
    }
    let info = match resolve_block_at_index(&state.days, &state.linked_refs, state.selected_block) {
        Some(i) => i,
        None => {
            return None;
        },
    };
    let block = match find_block_in_days(&state.days, info.block_uid.as_str()) {
        Some(b) => b,
        None => {
            return None;
        },
    };
    state.redo_stack.clear();
    proof {
        assert(state@.redo_stack =~= Seq::<UndoView>::empty());
    }
    let saved_selected = state.selected_block;
    state.undo_stack.push(
        UndoEntry::DeleteBlock {
            block,
            parent_uid: info.parent_uid.clone(),
            order: info.order,
            selected_block: saved_selected,
        },
    );
    proof {
        assert(state@.undo_stack =~= before.undo_stack.push(
            UndoView::DeleteBlock {
                block: block@,
                parent_uid: info.parent_uid@,
                order: info.order as int,
                selected_block: saved_selected as nat,
            },
        ));
        lemma_doc_remove_size(before.days, before.linked_refs, info.block_uid@);
        lemma_rows_le_size(doc_remove(before.days, info.block_uid@), before.linked_refs);
    }
    remove_block_from_days(&mut state.days, info.block_uid.as_str());
    let total = state.flat_block_count();
    if total == 0 {
        state.selected_block = 0;
    } else if state.selected_block >= total {
        state.selected_block = total - 1;
    }
    Some(WriteAction::DeleteBlock { block: BlockRef { uid: info.block_uid } })
}

/// The edit buffer after the key `key`: a character is typed, with its
/// closing partner where it opens a pair; the keys of the cursor move it;
/// enter with alt or control changes the task mark. Any other key leaves the
/// buffer as it is.
pub open spec fn typed(b: BufferView, key: KeyEvent) -> BufferView {
    let m = key.modifiers;
    match key.code {
        KeyCode::Char(ch) => if m == mods_none() || m == mods_shift() {
            if ch == '(' {
                b.insert_pair('(', ')')
            } else if ch == '[' {
                b.insert_pair('[', ']')
            } else if ch == '{' {
                b.insert_pair('{', '}')
            } else {
                b.insert_char(ch)
            }
        } else if m == mods_control() && ch == 'a' {
            b.move_home()
        } else if m == mods_control() && ch == 'e' {
            b.move_end()
        } else {
            b
        },
        KeyCode::Backspace => if m == mods_none() {
            b.delete_back()
        } else {
            b
        },
        KeyCode::Delete => if m == mods_none() {
            b.delete_forward()
        } else {
            b
        },
        KeyCode::Left => if m == mods_none() {
            b.move_left()
        } else if m == mods_control() {
            b.move_word_left()
        } else {
            b
        },
        KeyCode::Right => if m == mods_none() {
            b.move_right()
        } else if m == mods_control() {
            b.move_word_right()
        } else {
            b
        },
        KeyCode::Home => if m == mods_none() {
            b.move_home()
        } else {
            b
        },
        KeyCode::End => if m == mods_none() {
            b.move_end()
        } else {
            b
        },
        KeyCode::Up => if m == mods_none() {
            b.move_up()
        } else {
            b
        },
        KeyCode::Down => if m == mods_none() {
            b.move_down()
        } else {
            b
        },
        KeyCode::Enter => if m.alt || m.control {
            b.toggle_todo()
        } else {
            b
        },
        _ => b,
    }
}

/// Applies the key `key` to the edit buffer.
pub fn type_key(buffer: &mut EditBuffer, key: &KeyEvent)
    requires
        old(buffer).wf(),
    ensures
        final(buffer)@ == typed(old(buffer)@, *key),
        final(buffer).wf(),
{
    let plain = key.modifiers.is_none();
    let shift = key.modifiers.is_shift();
    let control = key.modifiers.is_control();
    match key.code {
        KeyCode::Char(ch) => {
            if plain || shift {
                if ch == '(' {
                    buffer.insert_pair('(', ')');
                } else if ch == '[' {
                    buffer.insert_pair('[', ']');
                } else if ch == '{' {
                    buffer.insert_pair('{', '}');
                } else {
                    buffer.insert_char(ch);
                }
            } else if control && ch == 'a' {
                buffer.move_home();
            } else if control && ch == 'e' {
                buffer.move_end();
            }
        },
        KeyCode::Backspace => {
            if plain {
                buffer.delete_back();
            }
        },
        KeyCode::Delete => {
            if plain {
                buffer.delete_forward();
            }
        },
        KeyCode::Left => {
            if plain {
                buffer.move_left();
            } else if control {
                buffer.move_word_left();
            }
        },
        KeyCode::Right => {
            if plain {
                buffer.move_right();
            } else if control {
                buffer.move_word_right();
            }
        },
        KeyCode::Home => {
            if plain {
                buffer.move_home();
            }
        },
        KeyCode::End => {
            if plain {
                buffer.move_end();
            }
        },
        KeyCode::Up => {
            if plain {
                buffer.move_up();
            }
        },
        KeyCode::Down => {
            if plain {
                buffer.move_down();
            }
        },
        KeyCode::Enter => {
            if key.modifiers.alt || key.modifiers.control {
                buffer.toggle_todo();
            }
        },
        _ => {},
    }
}

/// The choice one place up, where there is one.
pub open spec fn pick_up(selected: nat) -> nat {
    if selected > 0 {
        (selected - 1) as nat
    } else {
        0
    }
}

/// The choice one place down among `len`, where there is one.
pub open spec fn pick_down(selected: nat, len: nat) -> nat {
    if len > 0 && selected < len - 1 {
        selected + 1
    } else {
        selected
    }
}

/// The choice kept within `len` offers.
pub open spec fn pick_within(selected: nat, len: nat) -> nat {
    let last = if len > 0 {
        (len - 1) as nat
    } else {
        0
    };
    if selected < last {
        selected
    } else {
        last
    }
}

/// The offers for the query `query`, with the choice kept within them.
pub open spec fn requeried(s: AppStateView, selected: nat, query: Seq<char>, limit: nat) -> PickView {
    let results = found(s.days, s.block_ref_cache, lowercase(query), limit);
    PickView { query: query, results: results, selected: pick_within(selected, results.len()) }
}

/// The text that refers to the block `uid`, with the space that follows it.
pub open spec fn block_ref_text(uid: Seq<char>) -> Seq<char> {
    "(("@ + uid + ")) "@
}

/// Whether two characters stand before the cursor and `))` stands at it.
pub open spec fn closes_after(b: BufferView) -> bool {
    &&& b.cursor >= 2
    &&& b.cursor + 1 < b.chars.len()
    &&& b.chars[b.cursor as int] == ')'
    &&& b.chars[b.cursor as int + 1] == ')'
}

/// The state after the offer chosen has been taken: the reference to the
/// block takes the place of the brackets round the cursor. Without an offer,
/// an edit buffer or the brackets, only the choice is closed.
pub open spec fn confirmed(s: AppStateView) -> AppStateView {
    let closed = AppStateView { autocomplete: None, ..s };
    match s.autocomplete {
        None => closed,
        Some(ac) => if ac.selected >= ac.results.len() {
            closed
        } else {
            match s.input_mode {
                InputView::Normal => closed,
                InputView::Insert { buffer, block_uid, original_text, create_info } => if closes_after(
                    buffer,
                ) {
                    AppStateView {
                        input_mode: InputView::Insert {
                            buffer: buffer.replace_range(
                                buffer.cursor - 2,
                                buffer.cursor as int + 2,
                                block_ref_text(ac.results[ac.selected as int].0),
                            ),
                            block_uid: block_uid,
                            original_text: original_text,
                            create_info: create_info,
                        },
                        ..closed
                    }
                } else {
                    closed
                },
            }
        },
    }
}

/// The state after the key `key`, while a block to refer to is being chosen.
pub open spec fn autocomplete_key(s: AppStateView, key: KeyEvent) -> AppStateView {
    let plain = key.modifiers == mods_none();
    match s.autocomplete {
        None => s,
        Some(ac) => match key.code {
            KeyCode::Esc => if plain {
                AppStateView { autocomplete: None, ..s }
            } else {
                s
            },
            KeyCode::Up => if plain {
                AppStateView {
                    autocomplete: Some(PickView { selected: pick_up(ac.selected), ..ac }),
                    ..s
                }
            } else {
                s
            },
            KeyCode::Down => if plain {
                AppStateView {
                    autocomplete: Some(
                        PickView { selected: pick_down(ac.selected, ac.results.len()), ..ac },
                    ),
                    ..s
                }
            } else {
                s
            },
            KeyCode::Enter => if plain {
                confirmed(s)
            } else {
                s
            },
            KeyCode::Backspace => if plain {
                if ac.query.len() == 0 {
                    AppStateView { autocomplete: None, ..s }
                } else {
                    AppStateView {
                        autocomplete: Some(
                            requeried(
                                s,
                                ac.selected,
                                ac.query.drop_last(),
                                AUTOCOMPLETE_LIMIT as nat,
                            ),
                        ),
                        ..s
                    }
                }
            } else {
                s
            },
            KeyCode::Char(ch) => if plain || key.modifiers == mods_shift() {
                AppStateView {
                    autocomplete: Some(
                        requeried(s, ac.selected, ac.query.push(ch), AUTOCOMPLETE_LIMIT as nat),
                    ),
                    ..s
                }
            } else {
                s
            },
            _ => s,
        },
    }
}

/// The choice `selected` kept within `len` offers.
pub fn keep_within(selected: usize, len: usize) -> (r: usize)
    ensures
        r == pick_within(selected as nat, len as nat),
{
    let last = if len > 0 {
        len - 1
    } else {
        0
    };
    if selected < last {
        selected
    } else {
        last
    }
}

/// Takes the offer chosen: the reference to the block takes the place of the
/// brackets round the cursor.
pub fn confirm_autocomplete(state: &mut AppState) -> (r: Option<WriteAction>)
    requires
        sound(old(state)@),
    ensures
        final(state)@ == confirmed(old(state)@),
        r is None,
{
    let ac = match state.autocomplete.take() {
        Some(ac) => ac,
        None => {
            return None;
        },
    };
    if ac.selected >= ac.results.len() {
        return None;
    }
    let uid = ac.results[ac.selected].0.clone();
    match &mut state.input_mode {
        InputMode::Insert { buffer, .. } => {
            let cursor = buffer.cursor;
            if cursor < 2 {
                return None;
            }
            let start = cursor - 2;
            if cursor < buffer.chars.len() && cursor + 1 < buffer.chars.len() && buffer.chars[cursor]
                == ')' && buffer.chars[cursor + 1] == ')' {
                let mut replacement = "((".to_owned();
                push_str(&mut replacement, uid.as_str());
                push_str(&mut replacement, ")) ");
                buffer.replace_range(start, cursor + 2, replacement.as_str());
            }
            None
        },
        InputMode::Normal => None,
    }
}

/// Handles the key `key` while a block to refer to is being chosen.
pub fn handle_autocomplete_key(state: &mut AppState, key: &KeyEvent) -> (r: Option<WriteAction>)
    requires
        sound(old(state)@),
    ensures
        final(state)@ == autocomplete_key(old(state)@, *key),
        r is None,
{
    let plain = key.modifiers.is_none();
    let shift = key.modifiers.is_shift();
    match key.code {
        KeyCode::Esc => {
            if plain {
                state.autocomplete = None;
            }
        },
        KeyCode::Up => {
            if plain {
                match state.autocomplete.take() {
                    Some(mut ac) => {
                        if ac.selected > 0 {
                            ac.selected = ac.selected - 1;
                        }
                        state.autocomplete = Some(ac);
                    },
                    None => {},
                }
            }
        },
        KeyCode::Down => {
            if plain {
                match state.autocomplete.take() {
                    Some(mut ac) => {
                        if ac.results.len() > 0 && ac.selected < ac.results.len() - 1 {
                            ac.selected = ac.selected + 1;
                        }
                        state.autocomplete = Some(ac);
                    },
                    None => {},
                }
            }
        },
        KeyCode::Enter => {
            if plain {
                if state.autocomplete.is_some() {
                    return confirm_autocomplete(state);
                }
            }
        },
        KeyCode::Backspace => {
            if plain {
                match state.autocomplete.take() {
                    Some(mut ac) => {
                        if ac.query.as_str().is_empty() {
                            state.autocomplete = None;
                        } else {
                            pop_char(&mut ac.query);
                            ac.results = filter_blocks(
                                &state.days,
                                &state.block_ref_cache,
                                ac.query.as_str(),
                                AUTOCOMPLETE_LIMIT,
                            );
                            ac.selected = keep_within(ac.selected, ac.results.len());
                            state.autocomplete = Some(ac);
                        }
                    },
                    None => {},
                }
            }
        },
        KeyCode::Char(ch) => {
            if plain || shift {
                match state.autocomplete.take() {
                    Some(mut ac) => {
                        push_char(&mut ac.query, ch);
                        ac.results = filter_blocks(
                            &state.days,
                            &state.block_ref_cache,
                            ac.query.as_str(),
                            AUTOCOMPLETE_LIMIT,
                        );
                        ac.selected = keep_within(ac.selected, ac.results.len());
                        state.autocomplete = Some(ac);
                    },
                    None => {},
                }
            }
        },
        _ => {},
    }
    None
}

/// Whether `key` types a slash.
pub open spec fn types_slash(key: KeyEvent) -> bool {
    key.code == KeyCode::Char('/') && (key.modifiers == mods_none() || key.modifiers
        == mods_shift())
}

/// The buffer of the edit session, where there is one.
pub open spec fn buffer_of(mode: InputView) -> Option<BufferView> {
    match mode {
        InputView::Insert { buffer, .. } => Some(buffer),
        InputView::Normal => None,
    }
}

/// The choice of a command after its query has become `query`.
pub open spec fn requeried_menu(menu: SlashMenuView, query: Seq<char>) -> SlashMenuView {
    let commands = kept(command_list(), lowercase(query));
    SlashMenuView {
        query: query,
        commands: commands,
        selected: pick_within(menu.selected, commands.len()),
        ..menu
    }
}

/// The state after the key `key` while a command is being chosen: escape
/// closes the choice, the arrows move it, typing changes the query, which
/// stands in the text after the slash, and enter carries out the command
/// chosen, on the day `day` at the time `time`.
pub open spec fn slash_menu_key(s: AppStateView, key: KeyEvent, day: Date, time: Seq<char>) -> AppStateView {
    let plain = key.modifiers == mods_none();
    match s.slash_menu {
        None => s,
        Some(menu) => match buffer_of(s.input_mode) {
            None => AppStateView { slash_menu: None, ..s },
            Some(buffer) => match key.code {
                KeyCode::Esc => if plain {
                    AppStateView { slash_menu: None, ..s }
                } else {
                    s
                },
                KeyCode::Up => if plain {
                    AppStateView {
                        slash_menu: Some(SlashMenuView { selected: pick_up(menu.selected), ..menu }),
                        ..s
                    }
                } else {
                    s
                },
                KeyCode::Down => if plain {
                    AppStateView {
                        slash_menu: Some(
                            SlashMenuView {
                                selected: pick_down(menu.selected, menu.commands.len()),
                                ..menu
                            },
                        ),
                        ..s
                    }
                } else {
                    s
                },
                KeyCode::Enter => if plain {
                    let closed = AppStateView { slash_menu: None, ..s };
                    if menu.selected < menu.commands.len() && menu.slash_pos + 1 + menu.query.len()
                        <= buffer.chars.len() {
                        AppStateView {
                            input_mode: with_buffer(
                                s.input_mode,
                                executed(
                                    buffer,
                                    menu.commands[menu.selected as int].action,
                                    menu.slash_pos as int,
                                    menu.query.len() as int,
                                    day,
                                    time,
                                ),
                            ),
                            ..closed
                        }
                    } else {
                        closed
                    }
                } else {
                    s
                },
                KeyCode::Backspace => if plain {
                    let edited = with_buffer(s.input_mode, buffer.delete_back());
                    if menu.query.len() == 0 {
                        AppStateView { slash_menu: None, input_mode: edited, ..s }
                    } else {
                        AppStateView {
                            slash_menu: Some(requeried_menu(menu, menu.query.drop_last())),
                            input_mode: edited,
                            ..s
                        }
                    }
                } else {
                    s
                },
                KeyCode::Char(ch) => if plain || key.modifiers == mods_shift() {
                    AppStateView {
                        slash_menu: Some(requeried_menu(menu, menu.query.push(ch))),
                        input_mode: with_buffer(s.input_mode, buffer.insert_char(ch)),
                        ..s
                    }
                } else {
                    s
                },
                _ => s,
            },
        },
    }
}

/// Handles the key `key` while a command is being chosen, on the day `day`
/// at the time `time`.
pub fn handle_slash_menu_key(state: &mut AppState, key: &KeyEvent, day: Date, time: &str)
    requires
        sound(old(state)@),
    ensures
        final(state)@ == slash_menu_key(old(state)@, *key, day, time@),
        sound(final(state)@),
{
    let plain = key.modifiers.is_none();
    let shift = key.modifiers.is_shift();
    let mut menu = match state.slash_menu.take() {
        Some(m) => m,
        None => {
            return;
        },
    };
    match &mut state.input_mode {
        InputMode::Normal => {},
        InputMode::Insert { buffer, .. } => {
            match key.code {
                KeyCode::Esc => {
                    if !plain {
                        state.slash_menu = Some(menu);
                    }
                },
                KeyCode::Up => {
                    if plain && menu.selected > 0 {
                        menu.selected = menu.selected - 1;
                    }
                    state.slash_menu = Some(menu);
                },
                KeyCode::Down => {
                    if plain && menu.commands.len() > 0 && menu.selected < menu.commands.len() - 1 {
                        menu.selected = menu.selected + 1;
                    }
                    state.slash_menu = Some(menu);
                },
                KeyCode::Enter => {
                    if plain {
                        let query_len = menu.query.as_str().unicode_len();
                        let len = buffer.chars.len();
                        if menu.selected < menu.commands.len() && menu.slash_pos < len && query_len
                            <= len - menu.slash_pos - 1 {
                            let action = menu.commands[menu.selected].action;
                            execute_at(&action, buffer, menu.slash_pos, query_len, day, time);
                        }
                    } else {
                        state.slash_menu = Some(menu);
                    }
                },
                KeyCode::Backspace => {
                    if plain {
                        buffer.delete_back();
                        if !menu.query.as_str().is_empty() {
                            pop_char(&mut menu.query);
                            menu.commands = filter(menu.query.as_str());
                            menu.selected = keep_within(menu.selected, menu.commands.len());
                            state.slash_menu = Some(menu);
                        }
                    } else {
                        state.slash_menu = Some(menu);
                    }
                },
                KeyCode::Char(ch) => {
                    if plain || shift {
                        buffer.insert_char(ch);
                        push_char(&mut menu.query, ch);
                        menu.commands = filter(menu.query.as_str());
                        menu.selected = keep_within(menu.selected, menu.commands.len());
                    }
                    state.slash_menu = Some(menu);
                },
                _ => {
                    state.slash_menu = Some(menu);
                },
            }
        },
    }
}

/// The edit session with the buffer `buffer`.
pub open spec fn with_buffer(mode: InputView, b: BufferView) -> InputView {
    match mode {
        InputView::Insert { buffer, block_uid, original_text, create_info } => InputView::Insert {
            buffer: b,
            block_uid: block_uid,
            original_text: original_text,
            create_info: create_info,
        },
        InputView::Normal => mode,
    }
}

/// The state after the key `key` during an edit session. While a block to
/// refer to is being chosen, the key goes to the choice. Escape ends the
/// session, tab indents the block and back-tab dedents it. Any other key
/// goes to the buffer; where the cursor then stands between `((` and `))`,
/// the choice of a block opens.
pub open spec fn insert_key(s: AppStateView, key: KeyEvent, day: Date, time: Seq<char>) -> AppStateView {
    if s.autocomplete is Some {
        autocomplete_key(s, key)
    } else if s.slash_menu is Some {
        slash_menu_key(s, key, day, time)
    } else if key.code == KeyCode::Esc && key.modifiers == mods_none() {
        finalized(s)
    } else if key.code == KeyCode::Tab && key.modifiers == mods_none() {
        indented(s)
    } else if key.code == KeyCode::BackTab {
        dedented(s)
    } else {
        match s.input_mode {
            InputView::Normal => s,
            InputView::Insert { buffer, .. } => {
                let b = typed(buffer, key);
                let edited = AppStateView { input_mode: with_buffer(s.input_mode, b), ..s };
                let after = if types_slash(key) && slash_at(b) is Some {
                    AppStateView {
                        slash_menu: Some(
                            SlashMenuView {
                                query: Seq::empty(),
                                commands: command_list(),
                                selected: 0,
                                slash_pos: slash_at(b).unwrap(),
                            },
                        ),
                        ..edited
                    }
                } else {
                    edited
                };
                if at_block_ref(b.chars, b.cursor as int) {
                    AppStateView {
                        autocomplete: Some(
                            PickView {
                                query: Seq::empty(),
                                results: found(
                                    s.days,
                                    s.block_ref_cache,
                                    lowercase(Seq::empty()),
                                    AUTOCOMPLETE_LIMIT as nat,
                                ),
                                selected: 0,
                            },
                        ),
                        ..after
                    }
                } else {
                    after
                }
            },
        }
    }
}

/// What the remote service is asked after the key `key` during an edit
/// session.
pub open spec fn insert_key_write(s: AppStateView, key: KeyEvent) -> Option<WriteView> {
    if s.autocomplete is Some || s.slash_menu is Some {
        None
    } else if key.code == KeyCode::Esc && key.modifiers == mods_none() {
        finalize_write(s)
    } else if key.code == KeyCode::Tab && key.modifiers == mods_none() {
        indent_write(s)
    } else if key.code == KeyCode::BackTab {
        dedent_write(s)
    } else {
        None
    }
}

/// Whether the key `key` carries out a command that puts in a day or the
/// time of day: the clock is read for such a key only.
pub open spec fn reads_clock(s: AppStateView, key: KeyEvent) -> bool {
    &&& s.autocomplete is None
    &&& key.code == KeyCode::Enter
    &&& key.modifiers == mods_none()
    &&& s.slash_menu matches Some(menu) && menu.selected < menu.commands.len() && uses_clock(
        menu.commands[menu.selected as int].action,
    )
}

/// Whether the key `key` carries out a command that puts in a day or the
/// time of day.
pub fn wants_clock(state: &AppState, key: &KeyEvent) -> (r: bool)
    ensures
        r == reads_clock(state@, *key),
{
    if state.autocomplete.is_some() || !(key.code == KeyCode::Enter) || !key.modifiers.is_none() {
        return false;
    }
    match &state.slash_menu {
        Some(menu) => menu.selected < menu.commands.len() && needs_clock(
            &menu.commands[menu.selected].action,
        ),
        None => false,
    }
}

/// Handles the key `key` during an edit session. Returns what the remote
/// service is to be asked. The clock is read where the key carries out a
/// command that puts in a day or the time of day, and not else.
pub fn handle_insert_key(state: &mut AppState, key: &KeyEvent) -> (r: Option<WriteAction>)
    requires
        sound(old(state)@),
    ensures
        !reads_clock(old(state)@, *key) ==> final(state)@ == insert_key(
            old(state)@,
            *key,
            some_day(),
            Seq::empty(),
        ),
        reads_clock(old(state)@, *key) ==> exists|day: Date, time: Seq<char>|
            day.is_valid() && final(state)@ == #[trigger] insert_key(old(state)@, *key, day, time),
        match r {
            Some(w) => insert_key_write(old(state)@, *key) == Some(w@),
            None => insert_key_write(old(state)@, *key) is None,
        },
{
    if wants_clock(state, key) {
        let secs = crate::text::clock_secs();
        let day = crate::text::day_at(secs);
        let time = crate::text::clock_at(secs);
        handle_insert_key_at(state, key, day, time.as_str())
    } else {
        proof {
            reveal_strlit("");
            assert(""@ =~= Seq::<char>::empty());
        }
        handle_insert_key_at(state, key, spare_day(), "")
    }
}

/// Handles the key `key` during an edit session, on the day `day` at the
/// time `time`. Returns what the remote service is to be asked.
pub fn handle_insert_key_at(state: &mut AppState, key: &KeyEvent, day: Date, time: &str) -> (r: Option<
    WriteAction,
>)
    requires
        sound(old(state)@),
    ensures
        final(state)@ == insert_key(old(state)@, *key, day, time@),
        match r {
            Some(w) => insert_key_write(old(state)@, *key) == Some(w@),
            None => insert_key_write(old(state)@, *key) is None,
        },
{
    if state.autocomplete.is_some() {
        return handle_autocomplete_key(state, key);
    }
    if state.slash_menu.is_some() {
        handle_slash_menu_key(state, key, day, time);
        return None;
    }
    if key.code == KeyCode::Esc && key.modifiers.is_none() {
        return finalize_insert(state);
    }
    if key.code == KeyCode::Tab && key.modifiers.is_none() {
        return handle_indent(state);
    }
    if key.code == KeyCode::BackTab {
        return handle_dedent(state);
    }
    let slash_typed = match key.code {
        KeyCode::Char(c) => c == '/' && (key.modifiers.is_none() || key.modifiers.is_shift()),
        _ => false,
    };
    let (triggered, slash) = match &mut state.input_mode {
        InputMode::Insert { buffer, .. } => {
            type_key(buffer, key);
            let slash = if slash_typed {
                detect_trigger(buffer)
            } else {
                None
            };
            (detect_block_ref_trigger(buffer), slash)
        },
        InputMode::Normal => {
            return None;
        },
    };
    match slash {
        Some(slash_pos) => {
            state.slash_menu = Some(
                SlashMenuState {
                    query: String::new(),
                    commands: all_commands(),
                    selected: 0,
                    slash_pos,
                },
            );
        },
        None => {},
    }
    if triggered {
        proof {
            reveal_strlit("");
            assert(""@ =~= Seq::<char>::empty());
        }
        let results = filter_blocks(&state.days, &state.block_ref_cache, "", AUTOCOMPLETE_LIMIT);
        state.autocomplete = Some(AutocompleteState { query: String::new(), results, selected: 0 });
    }
    None
}

/// The state after the key `key` while the search is open: escape closes it,
/// the arrows move the choice, enter puts the cursor on the block chosen
/// where it is visible, and typing changes the query.
pub open spec fn search_key(s: AppStateView, key: KeyEvent) -> AppStateView {
    let plain = key.modifiers == mods_none();
    match s.search {
        None => s,
        Some(p) => match key.code {
            KeyCode::Esc => if plain {
                AppStateView { search: None, ..s }
            } else {
                s
            },
            KeyCode::Up => if plain {
                AppStateView { search: Some(PickView { selected: pick_up(p.selected), ..p }), ..s }
            } else {
                s
            },
            KeyCode::Down => if plain {
                AppStateView {
                    search: Some(PickView { selected: pick_down(p.selected, p.results.len()), ..p }),
                    ..s
                }
            } else {
                s
            },
            KeyCode::Enter => if plain {
                let closed = AppStateView { search: None, ..s };
                if p.selected < p.results.len() {
                    match index_in_days(s.days, s.linked_refs, p.results[p.selected as int].0) {
                        Some(i) => AppStateView { selected_block: i, cursor_col: 0, ..closed },
                        None => closed,
                    }
                } else {
                    closed
                }
            } else {
                s
            },
            KeyCode::Backspace => if plain {
                AppStateView {
                    search: Some(
                        requeried(
                            s,
                            p.selected,
                            if p.query.len() > 0 {
                                p.query.drop_last()
                            } else {
                                p.query
                            },
                            SEARCH_LIMIT as nat,
                        ),
                    ),
                    ..s
                }
            } else {
                s
            },
            KeyCode::Char(ch) => if plain || key.modifiers == mods_shift() {
                AppStateView {
                    search: Some(requeried(s, p.selected, p.query.push(ch), SEARCH_LIMIT as nat)),
                    ..s
                }
            } else {
                s
            },
            _ => s,
        },
    }
}

/// Handles the key `key` while the search is open.
pub fn handle_search_key(state: &mut AppState, key: &KeyEvent)
    requires
        sound(old(state)@),
    ensures
        final(state)@ == search_key(old(state)@, *key),
{
    let plain = key.modifiers.is_none();
    let shift = key.modifiers.is_shift();
    proof {
        lemma_rows_le_size(state@.days, state@.linked_refs);
    }
    match key.code {
        KeyCode::Esc => {
            if plain {
                state.search = None;
            }
        },
        KeyCode::Up => {
            if plain {
                match state.search.take() {
                    Some(mut p) => {
                        if p.selected > 0 {
                            p.selected = p.selected - 1;
                        }
                        state.search = Some(p);
                    },
                    None => {},
                }
            }
        },
        KeyCode::Down => {
            if plain {
                match state.search.take() {
                    Some(mut p) => {
                        if p.results.len() > 0 && p.selected < p.results.len() - 1 {
                            p.selected = p.selected + 1;
                        }
                        state.search = Some(p);
                    },
                    None => {},
                }
            }
        },
        KeyCode::Enter => {
            if plain {
                match state.search.take() {
                    Some(p) => {
                        if p.selected < p.results.len() {
                            match find_block_index_by_uid(
                                &state.days,
                                &state.linked_refs,
                                p.results[p.selected].0.as_str(),
                            ) {
                                Some(idx) => {
                                    state.selected_block = idx;
                                    state.cursor_col = 0;
                                },
                                None => {},
                            }
                        }
                    },
                    None => {},
                }
            }
        },
        KeyCode::Backspace => {
            if plain {
                match state.search.take() {
                    Some(mut p) => {
                        pop_char(&mut p.query);
                        p.results = filter_blocks(
                            &state.days,
                            &state.block_ref_cache,
                            p.query.as_str(),
                            SEARCH_LIMIT,
                        );
                        p.selected = keep_within(p.selected, p.results.len());
                        state.search = Some(p);
                    },
                    None => {},
                }
            }
        },
        KeyCode::Char(ch) => {
            if plain || shift {
                match state.search.take() {
                    Some(mut p) => {
                        push_char(&mut p.query, ch);
                        p.results = filter_blocks(
                            &state.days,
                            &state.block_ref_cache,
                            p.query.as_str(),
                            SEARCH_LIMIT,
                        );
                        p.selected = keep_within(p.selected, p.results.len());
                        state.search = Some(p);
                    },
                    None => {},
                }
            }
        },
        _ => {},
    }
}

/// The state after the key `key` while a link is being chosen: escape closes
/// the choice, the arrows move it, and enter jumps to the page chosen.
pub open spec fn link_picker_key(s: AppStateView, key: KeyEvent) -> AppStateView {
    let plain = key.modifiers == mods_none();
    match s.link_picker {
        None => s,
        Some(lp) => match key.code {
            KeyCode::Esc => if plain {
                AppStateView { link_picker: None, ..s }
            } else {
                s
            },
            KeyCode::Up => if plain {
                AppStateView {
                    link_picker: Some(LinkPickerView { selected: pick_up(lp.selected), ..lp }),
                    ..s
                }
            } else {
                s
            },
            KeyCode::Down => if plain {
                AppStateView {
                    link_picker: Some(
                        LinkPickerView { selected: pick_down(lp.selected, lp.links.len()), ..lp },
                    ),
                    ..s
                }
            } else {
                s
            },
            KeyCode::Enter => if plain {
                let closed = AppStateView { link_picker: None, ..s };
                if lp.selected < lp.links.len() {
                    navigated(closed, lp.links[lp.selected as int])
                } else {
                    closed
                }
            } else {
                s
            },
            _ => s,
        },
    }
}

/// The page that is asked for after the key `key` while a link is being
/// chosen.
pub open spec fn link_picker_load(s: AppStateView, key: KeyEvent) -> Option<LoadView> {
    match s.link_picker {
        None => None,
        Some(lp) => if key.code == KeyCode::Enter && key.modifiers == mods_none() && lp.selected
            < lp.links.len() {
            Some(LoadView::Page(lp.links[lp.selected as int]))
        } else {
            None
        },
    }
}

/// Handles the key `key` while a link is being chosen. Returns the page to
/// fetch, if one was chosen.
pub fn handle_link_picker_key(state: &mut AppState, key: &KeyEvent) -> (r: Option<LoadRequest>)
    ensures
        final(state)@ == link_picker_key(old(state)@, *key),
        match r {
            Some(l) => link_picker_load(old(state)@, *key) == Some(l@),
            None => link_picker_load(old(state)@, *key) is None,
        },
{
    let plain = key.modifiers.is_none();
    match key.code {
        KeyCode::Esc => {
            if plain {
                state.link_picker = None;
            }
        },
        KeyCode::Up => {
            if plain {
                match state.link_picker.take() {
                    Some(mut lp) => {
                        if lp.selected > 0 {
                            lp.selected = lp.selected - 1;
                        }
                        state.link_picker = Some(lp);
                    },
                    None => {},
                }
            }
        },
        KeyCode::Down => {
            if plain {
                match state.link_picker.take() {
                    Some(mut lp) => {
                        if lp.links.len() > 0 && lp.selected < lp.links.len() - 1 {
                            lp.selected = lp.selected + 1;
                        }
                        state.link_picker = Some(lp);
                    },
                    None => {},
                }
            }
        },
        KeyCode::Enter => {
            if plain {
                match state.link_picker.take() {
                    Some(lp) => {
                        if lp.selected < lp.links.len() {
                            let title = lp.links[lp.selected].clone();
                            return Some(navigate_to_page(state, title));
                        }
                    },
                    None => {},
                }
            }
        },
        _ => {},
    }
    None
}

} // verus!

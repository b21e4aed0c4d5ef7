use crate::blocks::{
    find_block_in_days, find_block_index_by_uid, insert_block_in_days, lemma_view_push,
    resolve_block_at_index, set_block_open,
};
use crate::bounds::{lemma_doc_insert_size, lemma_rows_le_size, sound};
use crate::date::Date;
use crate::doc::{
    doc_find, doc_insert, doc_update, flat_count, index_in_days, ref_day_in_days, ref_item_in_days,
    row_in_days, total_rows, with_blocks,
};
use crate::edit_buffer::{find_line_end, line_end, BufferView, EditBuffer};
use crate::maps::{lookup, put};
use crate::markdown::{extract_page_links, page_links, rendered, rendered_char_count, total_len};
use crate::nav::{
    history_cap, navigate_to_page, navigated, push_nav_snapshot, pushed, restore_nav_snapshot,
    restored, save_nav_snapshot_at_index, saved, snapshot_of, take_snapshot,
};
use crate::preset::Action;
use crate::search::{
    capped, filter_blocks, filter_page_titles, found, QUICK_SWITCHER_LIMIT, SEARCH_LIMIT,
};
use crate::state::{
    AppState, AppStateView, CreateInfo, InputMode, InputView, LinkPickerState, LinkPickerView,
    LinkedRefItem, LinkedRefItemView, LinkedRefsView, LoadRequest, LoadView, PickView,
    QuickSwitcherState, SearchState, SnapshotView, SwitcherView, ViewMode, ViewModeView,
};
use crate::text::{from_chars, hex, lowercase, nanos_since_epoch, push_hex, to_chars};
use crate::tree::{visible_count, with_open};
use crate::types::{forest_view, Block, BlockView, DailyNote, DailyNoteView};
use vstd::prelude::*;

verus! {

/// The uid of a block made `nanos` nanoseconds after the first of January
/// 1970: `tui-` and that number to the base sixteen.
pub open spec fn uid_text(nanos: nat) -> Seq<char> {
    "tui-"@ + hex(nanos)
}

/// The uid of a block made `nanos` nanoseconds after the first of January
/// 1970.
pub fn uid_for(nanos: u128) -> (uid: String)
    ensures
        uid@ == uid_text(nanos as nat),
{
    let mut uid = "tui-".to_owned();
    push_hex(&mut uid, nanos);
    uid
}

/// A uid for a new block, made from the time at which it is asked for.
pub fn generate_uid() -> (uid: String)
    ensures
        exists|nanos: nat| uid@ == #[trigger] uid_text(nanos),
{
    let nanos = nanos_since_epoch();
    uid_for(nanos)
}

/// The block that stands for a new, empty block with the uid `uid`.
pub open spec fn placeholder(uid: Seq<char>, order: int) -> BlockView {
    BlockView {
        uid: uid,
        text: Seq::empty(),
        order: order,
        open: true,
        children: Seq::empty(),
        refs: Seq::empty(),
    }
}

/// An empty block with the uid `uid`.
pub fn make_placeholder(uid: String, order: i64) -> (b: Block)
    ensures
        b@ == placeholder(uid@, order as int),
{
    let b = Block {
        uid,
        string: String::new(),
        order,
        children: Vec::new(),
        open: true,
        refs: Vec::new(),
    };
    assert(b@.children =~= Seq::<BlockView>::empty());
    assert(b@.refs =~= Seq::<Seq<char>>::empty());
    b
}

/// The day of the oldest page loaded, or `current` where none is.
pub open spec fn oldest_day(days: Seq<DailyNoteView>, current: Date) -> Date {
    if days.len() > 0 {
        days.last().date
    } else {
        current
    }
}

/// The page asked for when the cursor moves down: the day before the oldest
/// one, once the cursor leaves the last block of the daily notes and no page
/// is awaited yet.
pub open spec fn move_down_load(s: AppStateView) -> Option<LoadView> {
    let flat = flat_count(s.days);
    if total_rows(s.days, s.linked_refs) > 0 && flat > 0 && s.selected_block == flat - 1
        && !s.loading_more && s.view_mode == ViewModeView::DailyNotes {
        match oldest_day(s.days, s.current_date).day_before() {
            Some(d) => Some(LoadView::DailyNote(d)),
            None => None,
        }
    } else {
        None
    }
}

/// The state after the cursor has moved down one row, where there is one.
pub open spec fn moved_down(s: AppStateView) -> AppStateView {
    let total = total_rows(s.days, s.linked_refs);
    if total == 0 {
        s
    } else {
        let asked = AppStateView {
            loading_more: s.loading_more || move_down_load(s) is Some,
            ..s
        };
        if s.selected_block < total - 1 {
            AppStateView { selected_block: s.selected_block + 1, cursor_col: 0, ..asked }
        } else {
            asked
        }
    }
}

/// The day of the oldest page loaded, or the current day where none is.
pub fn oldest_date(state: &AppState) -> (d: Date)
    ensures
        d == oldest_day(state@.days, state@.current_date),
{
    if state.days.len() > 0 {
        state.days[state.days.len() - 1].date
    } else {
        state.current_date
    }
}

/// Moves the cursor down one row. Returns the older page to fetch, where the
/// cursor leaves the last block of the daily notes.
pub fn move_down(state: &mut AppState) -> (r: Option<LoadRequest>)
    requires
        sound(old(state)@),
    ensures
        final(state)@ == moved_down(old(state)@),
        match r {
            Some(l) => move_down_load(old(state)@) == Some(l@),
            None => move_down_load(old(state)@) is None,
        },
{
    proof {
        lemma_rows_le_size(state@.days, state@.linked_refs);
    }
    let total = state.total_navigable_count();
    if total == 0 {
        return None;
    }
    let flat = state.flat_block_count();
    let mut load_request: Option<LoadRequest> = None;
    if flat > 0 && state.selected_block == flat - 1 && !state.loading_more
        && state.view_mode.is_daily_notes() {
        match oldest_date(state).previous_day() {
            Some(prev_date) => {
                state.loading_more = true;
                load_request = Some(LoadRequest::DailyNote(prev_date));
            },
            None => {},
        }
    }
    if state.selected_block < total - 1 {
        state.selected_block += 1;
        state.cursor_col = 0;
    }
    load_request
}

/// The state after the edit of the block under the cursor has begun;
/// unchanged on a row that shows no block.
pub open spec fn editing(s: AppStateView) -> AppStateView {
    if ref_item_in_days(s.days, s.linked_refs, s.selected_block) is Some {
        s
    } else {
        match row_in_days(s.days, s.linked_refs, s.selected_block) {
            Some(info) => AppStateView {
                input_mode: InputView::Insert {
                    buffer: BufferView { chars: info.text, cursor: info.text.len() },
                    block_uid: info.block_uid,
                    original_text: info.text,
                    create_info: None,
                },
                ..s
            },
            None => s,
        }
    }
}

/// Begins the edit of the block under the cursor.
pub fn edit_block(state: &mut AppState)
    requires
        sound(old(state)@),
    ensures
        final(state)@ == editing(old(state)@),
{
    proof {
        lemma_rows_le_size(state@.days, state@.linked_refs);
    }
    if state.resolve_linked_ref_item(state.selected_block).is_some() {
        return;
    }
    match resolve_block_at_index(&state.days, &state.linked_refs, state.selected_block) {
        Some(info) => {
            state.input_mode = InputMode::Insert {
                buffer: EditBuffer::new(info.text.as_str()),
                block_uid: info.block_uid,
                original_text: info.text,
                create_info: None,
            };
        },
        None => {},
    }
}

/// The edit session of a block that is being created.
pub open spec fn creating(uid: Seq<char>, parent: Seq<char>, order: int) -> InputView {
    InputView::Insert {
        buffer: BufferView { chars: Seq::empty(), cursor: 0 },
        block_uid: uid,
        original_text: Seq::empty(),
        create_info: Some((parent, order)),
    }
}

/// The state after a block with the uid `uid` has been created: after the
/// block under the cursor, as its next sibling, with the cursor on it; or as
/// the one block of the first page, where no block is under the cursor. The
/// block is empty and being edited. Nothing happens on a row of references,
/// where no page is loaded, and where the new order would pass the greatest
/// order.
pub open spec fn created(s: AppStateView, uid: Seq<char>) -> AppStateView {
    if ref_item_in_days(s.days, s.linked_refs, s.selected_block) is Some {
        s
    } else {
        match row_in_days(s.days, s.linked_refs, s.selected_block) {
            Some(info) => if info.order + 1 > crate::tree::max_order() {
                s
            } else {
                let days = doc_insert(
                    s.days,
                    info.parent_uid,
                    info.order + 1,
                    placeholder(uid, info.order + 1),
                );
                let moved = match index_in_days(days, s.linked_refs, uid) {
                    Some(idx) => AppStateView { selected_block: idx, cursor_col: 0, ..s },
                    None => s,
                };
                AppStateView {
                    days: days,
                    input_mode: creating(uid, info.parent_uid, info.order + 1),
                    ..moved
                }
            },
            None => if s.days.len() > 0 {
                AppStateView {
                    days: s.days.update(
                        0,
                        with_blocks(s.days[0], s.days[0].blocks.push(placeholder(uid, 0))),
                    ),
                    selected_block: 0,
                    cursor_col: 0,
                    input_mode: creating(uid, s.days[0].uid, 0),
                    ..s
                }
            } else {
                s
            },
        }
    }
}

/// Creates an empty block with the uid `new_uid` after the block under the
/// cursor, and begins to edit it.
pub fn create_block(state: &mut AppState, new_uid: String)
    requires
        sound(old(state)@),
    ensures
        final(state)@ == created(old(state)@, new_uid@),
{
    let ghost before = state@;
    proof {
        lemma_rows_le_size(state@.days, state@.linked_refs);
    }
    if state.resolve_linked_ref_item(state.selected_block).is_some() {
        return;
    }
    match resolve_block_at_index(&state.days, &state.linked_refs, state.selected_block) {
        Some(info) => {
            if info.order == i64::MAX {
                return;
            }
            let order = info.order + 1;
            let parent_uid = info.parent_uid.clone();
            let block = make_placeholder(new_uid.clone(), order);
            proof {
                lemma_doc_insert_size(
                    before.days,
                    before.linked_refs,
                    parent_uid@,
                    order as int,
                    block@,
                );
                assert(crate::tree::size(block@.children) == 0);
                lemma_rows_le_size(
                    doc_insert(before.days, parent_uid@, order as int, block@),
                    before.linked_refs,
                );
            }
            insert_block_in_days(&mut state.days, parent_uid.as_str(), order, block);
            match find_block_index_by_uid(&state.days, &state.linked_refs, new_uid.as_str()) {
                Some(idx) => {
                    state.selected_block = idx;
                    state.cursor_col = 0;
                },
                None => {},
            }
            state.input_mode = InputMode::Insert {
                buffer: EditBuffer::new_empty(),
                block_uid: new_uid,
                original_text: String::new(),
                create_info: Some(CreateInfo { parent_uid, order }),
            };
        },
        None => {
            if state.days.len() > 0 {
                let parent_uid = state.days[0].uid.clone();
                let block = make_placeholder(new_uid.clone(), 0);
                let ghost kids = state.days@[0].blocks@;
                state.days[0].blocks.push(block);
                proof {
                    lemma_view_push(kids, block);
                    assert(state@.days =~= before.days.update(
                        0,
                        with_blocks(before.days[0], before.days[0].blocks.push(block@)),
                    ));
                }
                state.selected_block = 0;
                state.cursor_col = 0;
                state.input_mode = InputMode::Insert {
                    buffer: EditBuffer::new_empty(),
                    block_uid: new_uid,
                    original_text: String::new(),
                    create_info: Some(CreateInfo { parent_uid, order: 0 }),
                };
            }
        },
    }
}

/// The state after the block under the cursor has been opened or closed;
/// unchanged on a row that shows no block.
pub open spec fn opened(s: AppStateView, open: bool) -> AppStateView {
    if ref_item_in_days(s.days, s.linked_refs, s.selected_block) is Some {
        s
    } else {
        match row_in_days(s.days, s.linked_refs, s.selected_block) {
            Some(info) => AppStateView {
                days: doc_update(s.days, info.block_uid, with_open(open)),
                ..s
            },
            None => s,
        }
    }
}

/// Opens or closes the block under the cursor.
pub fn set_open_at_cursor(state: &mut AppState, open: bool)
    requires
        sound(old(state)@),
    ensures
        final(state)@ == opened(old(state)@, open),
{
    proof {
        lemma_rows_le_size(state@.days, state@.linked_refs);
    }
    if state.resolve_linked_ref_item(state.selected_block).is_some() {
        return;
    }
    match resolve_block_at_index(&state.days, &state.linked_refs, state.selected_block) {
        Some(info) => {
            set_block_open(&mut state.days, info.block_uid.as_str(), open);
        },
        None => {},
    }
}

/// The section of references `lr` folded where it was shown in full, and
/// the other way round.
pub open spec fn folded(lr: LinkedRefsView) -> LinkedRefsView {
    LinkedRefsView { collapsed: !lr.collapsed, ..lr }
}

/// The state after enter on a row of references: the header of the section
/// folds or unfolds it, and any other row jumps to the page it names.
pub open spec fn entered_ref(s: AppStateView, item: LinkedRefItemView) -> AppStateView {
    match item {
        LinkedRefItemView::SectionHeader => match ref_day_in_days(
            s.days,
            s.linked_refs,
            s.selected_block as int,
        ) {
            Some(title) => match lookup(s.linked_refs, title) {
                Some(lr) => AppStateView { linked_refs: put(s.linked_refs, title, folded(lr)), ..s },
                None => s,
            },
            None => s,
        },
        LinkedRefItemView::GroupHeader(title) => navigated(s, title),
        LinkedRefItemView::Block(b) => navigated(s, b.page_title),
    }
}

/// The state after enter on the block that row `info` shows: a block without
/// links is opened or closed, a block with one link jumps to that page, and
/// a block with more offers them for choice.
pub open spec fn entered_block(s: AppStateView, info: crate::tree::RowView) -> AppStateView {
    let links = page_links(info.text);
    if links.len() == 0 {
        match doc_find(s.days, info.block_uid) {
            Some(block) => AppStateView {
                days: doc_update(s.days, info.block_uid, with_open(!block.open)),
                ..s
            },
            None => s,
        }
    } else if links.len() == 1 {
        navigated(s, links[0])
    } else {
        AppStateView { link_picker: Some(LinkPickerView { links: links, selected: 0 }), ..s }
    }
}

/// The state after enter.
pub open spec fn entered(s: AppStateView) -> AppStateView {
    match ref_item_in_days(s.days, s.linked_refs, s.selected_block) {
        Some(item) => entered_ref(s, item),
        None => match row_in_days(s.days, s.linked_refs, s.selected_block) {
            Some(info) => entered_block(s, info),
            None => s,
        },
    }
}

/// The page asked for after enter.
pub open spec fn enter_load(s: AppStateView) -> Option<LoadView> {
    match ref_item_in_days(s.days, s.linked_refs, s.selected_block) {
        Some(item) => match item {
            LinkedRefItemView::SectionHeader => None,
            LinkedRefItemView::GroupHeader(title) => Some(LoadView::Page(title)),
            LinkedRefItemView::Block(b) => Some(LoadView::Page(b.page_title)),
        },
        None => match row_in_days(s.days, s.linked_refs, s.selected_block) {
            Some(info) => if page_links(info.text).len() == 1 {
                Some(LoadView::Page(page_links(info.text)[0]))
            } else {
                None
            },
            None => None,
        },
    }
}

/// Handles enter on the row under the cursor. Returns the page to fetch,
/// where enter jumps to one.
pub fn enter(state: &mut AppState) -> (r: Option<LoadRequest>)
    requires
        sound(old(state)@),
    ensures
        final(state)@ == entered(old(state)@),
        match r {
            Some(l) => enter_load(old(state)@) == Some(l@),
            None => enter_load(old(state)@) is None,
        },
{
    proof {
        lemma_rows_le_size(state@.days, state@.linked_refs);
    }
    match state.resolve_linked_ref_item(state.selected_block) {
        Some(item) => {
            match item {
                LinkedRefItem::SectionHeader => {
                    match state.linked_ref_day_at(state.selected_block) {
                        Some(day_title) => {
                            let folded = match state.linked_refs.get(day_title.as_str()) {
                                Some(lr) => {
                                    let mut copy = lr.clone();
                                    copy.collapsed = !copy.collapsed;
                                    Some(copy)
                                },
                                None => None,
                            };
                            match folded {
                                Some(lr) => {
                                    state.linked_refs.insert(day_title, lr);
                                },
                                None => {},
                            }
                        },
                        None => {},
                    }
                    return None;
                },
                LinkedRefItem::GroupHeader(title) => {
                    return Some(navigate_to_page(state, title));
                },
                LinkedRefItem::Block(block) => {
                    return Some(navigate_to_page(state, block.page_title));
                },
            }
        },
        None => {},
    }
    match resolve_block_at_index(&state.days, &state.linked_refs, state.selected_block) {
        Some(info) => {
            let mut links = extract_page_links(info.text.as_str());
            proof {
                assert(crate::types::strings_view(links@).len() == links.len());
            }
            if links.len() == 0 {
                match find_block_in_days(&state.days, info.block_uid.as_str()) {
                    Some(block) => {
                        set_block_open(&mut state.days, info.block_uid.as_str(), !block.open);
                    },
                    None => {},
                }
            } else if links.len() == 1 {
                let title = links[0].clone();
                return Some(navigate_to_page(state, title));
            } else {
                state.link_picker = Some(LinkPickerState { links, selected: 0 });
            }
        },
        None => {},
    }
    None
}

/// The row that the cursor jumps to when it goes to the newer day: with the
/// days from `i` on still to look at and `acc` blocks before them, the first
/// day but the newest within whose blocks the cursor stands decides, and the
/// cursor goes to the first block of the day before it.
pub open spec fn next_day_target(days: Seq<DailyNoteView>, selected: nat, i: int, acc: nat) -> Option<
    nat,
>
    decreases days.len() - i,
{
    if i < 0 || i >= days.len() {
        None
    } else {
        let c = visible_count(days[i].blocks);
        if selected < acc + c && i > 0 {
            let before = visible_count(days[i - 1].blocks);
            Some(
                if acc >= before {
                    (acc - before) as nat
                } else {
                    0
                },
            )
        } else {
            next_day_target(days, selected, i + 1, acc + c)
        }
    }
}

/// The state after a jump to the newer day.
pub open spec fn next_day(s: AppStateView) -> AppStateView {
    if s.view_mode != ViewModeView::DailyNotes || s.days.len() <= 1 {
        s
    } else {
        match next_day_target(s.days, s.selected_block, 0, 0) {
            Some(t) => AppStateView { selected_block: t, cursor_col: 0, ..s },
            None => s,
        }
    }
}

pub proof fn lemma_flat_step(days: Seq<DailyNoteView>, i: int)
    requires
        0 <= i < days.len(),
    ensures
        flat_count(days.skip(i)) == visible_count(days[i].blocks) + flat_count(days.skip(i + 1)),
        days.skip(0) == days,
{
    crate::blocks::lemma_skip_step(days, i);
}

/// Jumps to the first block of the newer day.
pub fn go_next_day(state: &mut AppState)
    requires
        sound(old(state)@),
    ensures
        final(state)@ == next_day(old(state)@),
{
    if !state.view_mode.is_daily_notes() {
        return;
    }
    if state.days.len() <= 1 {
        return;
    }
    let ghost d = state@.days;
    proof {
        lemma_rows_le_size(d, state@.linked_refs);
        lemma_flat_step(d, 0);
    }
    let selected = state.selected_block;
    let mut block_count: usize = 0;
    let mut previous: usize = 0;
    let mut target: Option<usize> = None;
    let mut i: usize = 0;
    while i < state.days.len()
        invariant_except_break
            target is None,
            next_day_target(d, selected as nat, 0, 0) == next_day_target(
                d,
                selected as nat,
                i as int,
                block_count as nat,
            ),
        invariant
            i <= state.days.len(),
            *state == *old(state),
            d == state@.days,
            d.len() == state.days.len(),
            flat_count(d) <= usize::MAX,
            block_count + flat_count(d.skip(i as int)) == flat_count(d),
            i > 0 ==> previous == visible_count(d[i - 1].blocks),
        ensures
            match target {
                Some(t) => next_day_target(d, selected as nat, 0, 0) == Some(t as nat),
                None => next_day_target(d, selected as nat, 0, 0) is None,
            },
            *state == *old(state),
        decreases state.days.len() - i,
    {
        proof {
            lemma_flat_step(d, i as int);
            assert(d[i as int].blocks == forest_view(state.days@[i as int].blocks@));
        }
        let day_blocks = crate::blocks::count_blocks_recursive(&state.days[i].blocks);
        if selected < block_count + day_blocks && i > 0 {
            target = Some(
                if block_count >= previous {
                    block_count - previous
                } else {
                    0
                },
            );
            break ;
        }
        block_count = block_count + day_blocks;
        previous = day_blocks;
        i += 1;
    }
    match target {
        Some(t) => {
            state.selected_block = t;
            state.cursor_col = 0;
        },
        None => {},
    }
}

/// The row that the cursor jumps to when it goes to the older day: the first
/// block of the day after the one within whose blocks the cursor stands,
/// where such a day is loaded.
pub open spec fn prev_day_target(days: Seq<DailyNoteView>, selected: nat, i: int, acc: nat) -> Option<
    nat,
>
    decreases days.len() - i,
{
    if i < 0 || i >= days.len() {
        None
    } else {
        let c = visible_count(days[i].blocks);
        if selected < acc + c {
            if i + 1 < days.len() {
                Some(acc + c)
            } else {
                None
            }
        } else {
            prev_day_target(days, selected, i + 1, acc + c)
        }
    }
}

/// The page asked for after a jump to the older day: the day before the
/// oldest one, where no older day is loaded and none is awaited.
pub open spec fn prev_day_load(s: AppStateView) -> Option<LoadView> {
    if s.view_mode == ViewModeView::DailyNotes && prev_day_target(s.days, s.selected_block, 0, 0)
        is None && !s.loading_more {
        match oldest_day(s.days, s.current_date).day_before() {
            Some(d) => Some(LoadView::DailyNote(d)),
            None => None,
        }
    } else {
        None
    }
}

/// The state after a jump to the older day.
pub open spec fn prev_day(s: AppStateView) -> AppStateView {
    if s.view_mode != ViewModeView::DailyNotes {
        s
    } else {
        match prev_day_target(s.days, s.selected_block, 0, 0) {
            Some(t) => AppStateView { selected_block: t, cursor_col: 0, ..s },
            None => AppStateView { loading_more: s.loading_more || prev_day_load(s) is Some, ..s },
        }
    }
}

/// Jumps to the first block of the older day. Returns the page to fetch,
/// where no older day is loaded.
pub fn go_prev_day(state: &mut AppState) -> (r: Option<LoadRequest>)
    requires
        sound(old(state)@),
    ensures
        final(state)@ == prev_day(old(state)@),
        match r {
            Some(l) => prev_day_load(old(state)@) == Some(l@),
            None => prev_day_load(old(state)@) is None,
        },
{
    if !state.view_mode.is_daily_notes() {
        return None;
    }
    let ghost d = state@.days;
    proof {
        lemma_rows_le_size(d, state@.linked_refs);
        assert(d.skip(0) =~= d);
    }
    let selected = state.selected_block;
    let mut block_count: usize = 0;
    let mut target: Option<usize> = None;
    let mut i: usize = 0;
    while i < state.days.len()
        invariant_except_break
            target is None,
            prev_day_target(d, selected as nat, 0, 0) == prev_day_target(
                d,
                selected as nat,
                i as int,
                block_count as nat,
            ),
        invariant
            i <= state.days.len(),
            *state == *old(state),
            d == state@.days,
            d.len() == state.days.len(),
            flat_count(d) <= usize::MAX,
            block_count + flat_count(d.skip(i as int)) == flat_count(d),
        ensures
            match target {
                Some(t) => prev_day_target(d, selected as nat, 0, 0) == Some(t as nat),
                None => prev_day_target(d, selected as nat, 0, 0) is None,
            },
            *state == *old(state),
        decreases state.days.len() - i,
    {
        proof {
            lemma_flat_step(d, i as int);
            assert(d[i as int].blocks == forest_view(state.days@[i as int].blocks@));
        }
        let day_blocks = crate::blocks::count_blocks_recursive(&state.days[i].blocks);
        if selected < block_count + day_blocks {
            if i + 1 < state.days.len() {
                target = Some(block_count + day_blocks);
            }
            break ;
        }
        block_count = block_count + day_blocks;
        i += 1;
    }
    match target {
        Some(t) => {
            state.selected_block = t;
            state.cursor_col = 0;
            None
        },
        None => {
            if !state.loading_more {
                match oldest_date(state).previous_day() {
                    Some(prev_date) => {
                        state.loading_more = true;
                        return Some(LoadRequest::DailyNote(prev_date));
                    },
                    None => {},
                }
            }
            None
        },
    }
}

/// The state after a return to the daily notes: from a page, the page goes
/// to the history and today's notes are awaited; within the daily notes, the
/// cursor goes to the first row.
pub open spec fn gone_daily(s: AppStateView) -> AppStateView {
    if s.view_mode != ViewModeView::DailyNotes {
        AppStateView {
            view_mode: ViewModeView::DailyNotes,
            days: Seq::empty(),
            selected_block: 0,
            cursor_col: 0,
            loading: true,
            linked_refs: Seq::empty(),
            status_message: Some("Loading today's notes..."@),
            ..pushed(s)
        }
    } else {
        AppStateView { selected_block: 0, cursor_col: 0, ..s }
    }
}

/// The page asked for after a return to the daily notes: today's, unless it
/// is the first page shown.
pub open spec fn go_daily_load(s: AppStateView) -> Option<LoadView> {
    if s.view_mode != ViewModeView::DailyNotes {
        Some(LoadView::DailyNote(s.current_date))
    } else if s.days.len() > 0 && s.days[0].date == s.current_date {
        None
    } else {
        Some(LoadView::DailyNote(s.current_date))
    }
}

/// Returns to the daily notes. Returns the page to fetch, if any.
pub fn go_daily(state: &mut AppState) -> (r: Option<LoadRequest>)
    ensures
        final(state)@ == gone_daily(old(state)@),
        match r {
            Some(l) => go_daily_load(old(state)@) == Some(l@),
            None => go_daily_load(old(state)@) is None,
        },
{
    if !state.view_mode.is_daily_notes() {
        push_nav_snapshot(state);
        state.view_mode = ViewMode::DailyNotes;
        state.days.clear();
        state.selected_block = 0;
        state.cursor_col = 0;
        state.loading = true;
        state.linked_refs.clear();
        state.status_message = Some("Loading today's notes...".to_owned());
        proof {
            assert(state@.days =~= Seq::empty());
        }
        return Some(LoadRequest::DailyNote(state.current_date));
    }
    state.selected_block = 0;
    state.cursor_col = 0;
    if state.days.len() > 0 && state.days[0].date == state.current_date {
        return None;
    }
    Some(LoadRequest::DailyNote(state.current_date))
}

/// The first line of a text.
pub open spec fn first_line(text: Seq<char>) -> Seq<char> {
    text.take(line_end(text, 0))
}

/// Characters that a line shows, as far as they can be counted.
pub open spec fn shown_len(line: Seq<char>) -> nat {
    if total_len(rendered(line, None)) <= usize::MAX {
        total_len(rendered(line, None))
    } else {
        usize::MAX as nat
    }
}

/// The state after the column of the cursor has moved right, within what the
/// first line of the block under the cursor shows.
pub open spec fn cursor_right(s: AppStateView) -> AppStateView {
    match row_in_days(s.days, s.linked_refs, s.selected_block) {
        Some(info) => {
            let n = shown_len(first_line(info.text));
            if n > 0 && s.cursor_col < n - 1 {
                AppStateView { cursor_col: s.cursor_col + 1, ..s }
            } else {
                s
            }
        },
        None => s,
    }
}

/// Moves the column of the cursor right.
pub fn move_cursor_right(state: &mut AppState)
    requires
        sound(old(state)@),
    ensures
        final(state)@ == cursor_right(old(state)@),
{
    proof {
        lemma_rows_le_size(state@.days, state@.linked_refs);
    }
    match resolve_block_at_index(&state.days, &state.linked_refs, state.selected_block) {
        Some(info) => {
            let chars = to_chars(info.text.as_str());
            let end = find_line_end(&chars, 0);
            let line = from_chars(&chars, 0, end);
            let rendered_len = rendered_char_count(line.as_str());
            if rendered_len > 0 && state.cursor_col < rendered_len - 1 {
                state.cursor_col += 1;
            }
        },
        None => {},
    }
}

/// The history after the view shown now has been added at its end; the
/// oldest view goes where more than [`history_cap`] would be kept.
pub open spec fn left_behind(s: AppStateView) -> Seq<SnapshotView> {
    let grown = s.nav_history.push(snapshot_of(s));
    if grown.len() > history_cap() {
        grown.remove(0)
    } else {
        grown
    }
}

/// The state after a step back in the history of views, where there is one
/// to go back to: the view left is kept in the history. A step back from
/// the end of the history adds the view left at the end, and shows the view
/// before it.
pub open spec fn nav_back(s: AppStateView) -> AppStateView {
    if s.nav_index == s.nav_history.len() {
        if s.nav_history.len() > 0 {
            restored(
                AppStateView {
                    nav_history: left_behind(s),
                    nav_index: (left_behind(s).len() - 2) as nat,
                    ..s
                },
            )
        } else {
            s
        }
    } else if s.nav_index > 0 {
        restored(AppStateView { nav_index: (s.nav_index - 1) as nat, ..saved(s) })
    } else {
        s
    }
}

/// Goes one step back in the history of views.
pub fn go_back(state: &mut AppState)
    ensures
        final(state)@ == nav_back(old(state)@),
{
    let ghost before = state@;
    let at_end = state.nav_index == state.nav_history.len();
    let can_go_back = if at_end {
        state.nav_history.len() > 0
    } else {
        state.nav_index > 0
    };
    if can_go_back {
        if at_end {
            let snapshot = take_snapshot(state);
            state.nav_history.push(snapshot);
            if state.nav_history.len() > 50 {
                state.nav_history.remove(0);
            }
            proof {
                assert(state@.nav_history =~= left_behind(before));
            }
            state.nav_index = state.nav_history.len() - 2;
        } else {
            save_nav_snapshot_at_index(state);
            state.nav_index -= 1;
        }
        restore_nav_snapshot(state);
    }
}

/// The state after a step forward in the history of views, where there is
/// one to go forward to.
pub open spec fn nav_forward(s: AppStateView) -> AppStateView {
    if s.nav_index + 1 < s.nav_history.len() {
        restored(AppStateView { nav_index: s.nav_index + 1, ..saved(s) })
    } else {
        s
    }
}

/// Goes one step forward in the history of views.
pub fn go_forward(state: &mut AppState)
    ensures
        final(state)@ == nav_forward(old(state)@),
{
    if state.nav_index < state.nav_history.len() && state.nav_index + 1 < state.nav_history.len() {
        save_nav_snapshot_at_index(state);
        state.nav_index += 1;
        restore_nav_snapshot(state);
    }
}

/// The state after the action `action`, for every action but the creation of
/// a block, whose new uid is not known beforehand.
pub open spec fn acted(s: AppStateView, action: Action) -> AppStateView {
    match action {
        Action::Quit => AppStateView { should_quit: true, ..s },
        Action::MoveUp => if s.selected_block > 0 {
            AppStateView { selected_block: (s.selected_block - 1) as nat, cursor_col: 0, ..s }
        } else {
            s
        },
        Action::MoveDown => moved_down(s),
        Action::EditBlock => editing(s),
        Action::Search => AppStateView {
            search: Some(
                PickView {
                    query: Seq::empty(),
                    results: found(
                        s.days,
                        s.block_ref_cache,
                        lowercase(Seq::empty()),
                        SEARCH_LIMIT as nat,
                    ),
                    selected: 0,
                },
            ),
            ..s
        },
        Action::Collapse => opened(s, false),
        Action::Expand => opened(s, true),
        Action::Enter => entered(s),
        Action::NextDay => next_day(s),
        Action::PrevDay => prev_day(s),
        Action::GoDaily => gone_daily(s),
        Action::Help => AppStateView { show_help: !s.show_help, ..s },
        Action::Exit => AppStateView { show_help: false, ..s },
        Action::CursorLeft => if s.cursor_col > 0 {
            AppStateView { cursor_col: (s.cursor_col - 1) as nat, ..s }
        } else {
            s
        },
        Action::CursorRight => cursor_right(s),
        Action::NavBack => nav_back(s),
        Action::NavForward => nav_forward(s),
        Action::QuickSwitcher => AppStateView {
            quick_switcher: Some(
                SwitcherView {
                    query: Seq::empty(),
                    filtered: capped(s.page_title_cache, QUICK_SWITCHER_LIMIT as nat),
                    selected: 0,
                    debounce_ticks: 0,
                    fetching: false,
                },
            ),
            ..s
        },
        _ => s,
    }
}

/// The page asked for after the action `action`.
pub open spec fn action_load(s: AppStateView, action: Action) -> Option<LoadView> {
    match action {
        Action::MoveDown => move_down_load(s),
        Action::Enter => enter_load(s),
        Action::PrevDay => prev_day_load(s),
        Action::GoDaily => go_daily_load(s),
        _ => None,
    }
}

/// Does what the action `action` asks. Returns the page to fetch, where the
/// action needs one. A new block gets a uid made from the time: `tui-` and
/// a number to the base sixteen.
pub fn handle_action(state: &mut AppState, action: &Action) -> (r: Option<LoadRequest>)
    requires
        sound(old(state)@),
    ensures
        *action != Action::CreateBlock ==> final(state)@ == acted(old(state)@, *action),
        *action == Action::CreateBlock ==> exists|nanos: nat|
            final(state)@ == created(old(state)@, #[trigger] uid_text(nanos)),
        match r {
            Some(l) => action_load(old(state)@, *action) == Some(l@),
            None => action_load(old(state)@, *action) is None,
        },
{
    match action {
        Action::Quit => {
            state.should_quit = true;
            None
        },
        Action::MoveUp => {
            if state.selected_block > 0 {
                state.selected_block -= 1;
                state.cursor_col = 0;
            }
            None
        },
        Action::MoveDown => move_down(state),
        Action::EditBlock => {
            edit_block(state);
            None
        },
        Action::CreateBlock => {
            let new_uid = generate_uid();
            create_block(state, new_uid);
            None
        },
        Action::Search => {
            proof {
                reveal_strlit("");
                assert(""@ =~= Seq::<char>::empty());
            }
            let results = filter_blocks(&state.days, &state.block_ref_cache, "", SEARCH_LIMIT);
            state.search = Some(SearchState { query: String::new(), results, selected: 0 });
            None
        },
        Action::Collapse => {
            set_open_at_cursor(state, false);
            None
        },
        Action::Expand => {
            set_open_at_cursor(state, true);
            None
        },
        Action::Enter => enter(state),
        Action::NextDay => {
            go_next_day(state);
            None
        },
        Action::PrevDay => go_prev_day(state),
        Action::GoDaily => go_daily(state),
        Action::Help => {
            state.show_help = !state.show_help;
            None
        },
        Action::Exit => {
            if state.show_help {
                state.show_help = false;
            }
            None
        },
        Action::CursorLeft => {
            if state.cursor_col > 0 {
                state.cursor_col -= 1;
            }
            None
        },
        Action::CursorRight => {
            move_cursor_right(state);
            None
        },
        Action::NavBack => {
            go_back(state);
            None
        },
        Action::NavForward => {
            go_forward(state);
            None
        },
        Action::QuickSwitcher => {
            proof {
                reveal_strlit("");
            }
            let filtered = if state.page_title_cache.len() > 0 {
                filter_page_titles(&state.page_title_cache, "", QUICK_SWITCHER_LIMIT)
            } else {
                Vec::new()
            };
            proof {
                assert(crate::state::pairs_view(filtered@) =~= capped(
                    state@.page_title_cache,
                    QUICK_SWITCHER_LIMIT as nat,
                ));
            }
            state.quick_switcher = Some(
                QuickSwitcherState {
                    query: String::new(),
                    filtered,
                    selected: 0,
                    debounce_ticks: 0,
                    fetching: false,
                },
            );
            None
        },
        _ => None,
    }
}

} // verus!

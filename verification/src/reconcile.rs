use crate::actions::{generate_uid, make_placeholder, placeholder, uid_text};
use crate::date::{daily_title, format_roam_daily_title, Date};
use crate::error::{popup_for, ErrorInfo, ErrorPopup};
use crate::maps::{put, without};
use crate::state::{
    AppState, AppStateView, InputView, LinkedRefsState, LinkedRefsView, ViewModeView,
};
use crate::types::{DailyNote, DailyNoteView, LinkedRefGroup, LinkedRefGroupView};
use vstd::prelude::*;

verus! {

/// A page as it is taken in: a daily note without a title gets the title of
/// its day, and a page without blocks gets one empty block with the uid
/// `uid`, so that the cursor always has a place.
pub open spec fn taken_in(note: DailyNoteView, uid: Seq<char>, daily: bool) -> DailyNoteView {
    DailyNoteView {
        title: if daily && note.title.len() == 0 {
            daily_title(note.date)
        } else {
            note.title
        },
        blocks: if note.blocks.len() == 0 {
            seq![placeholder(uid, 0)]
        } else {
            note.blocks
        },
        ..note
    }
}

/// Where the page of the day `date` goes among `days`, which are kept from
/// the newest to the oldest: before the first page of an earlier day.
pub open spec fn date_pos(days: Seq<DailyNoteView>, date: Date) -> int
    decreases days.len(),
{
    if days.len() == 0 {
        0
    } else if days[0].date.before(date) {
        0
    } else {
        1 + date_pos(days.skip(1), date)
    }
}

/// The state after the daily note `note` has been loaded.
pub open spec fn daily_loaded(s: AppStateView, note: DailyNoteView, uid: Seq<char>) -> AppStateView {
    AppStateView {
        days: s.days.insert(date_pos(s.days, note.date), taken_in(note, uid, true)),
        loading: false,
        loading_more: false,
        status_message: None,
        ..s
    }
}

pub proof fn lemma_date_pos(days: Seq<DailyNoteView>, date: Date)
    ensures
        0 <= date_pos(days, date) <= days.len(),
    decreases days.len(),
{
    if days.len() > 0 && !days[0].date.before(date) {
        lemma_date_pos(days.skip(1), date);
    }
}

/// Gives a page without blocks one empty block with the uid `uid`.
pub fn ensure_block(note: &mut DailyNote, uid: String)
    ensures
        final(note)@ == (DailyNoteView {
            blocks: if old(note)@.blocks.len() == 0 {
                seq![placeholder(uid@, 0)]
            } else {
                old(note)@.blocks
            },
            ..old(note)@
        }),
{
    if note.blocks.len() == 0 {
        let block = make_placeholder(uid, 0);
        note.blocks.push(block);
        assert(note@.blocks =~= seq![placeholder(uid@, 0)]);
    }
}

/// Takes in the daily note `note`, with `fresh_uid` for the block that a
/// note without blocks gets.
pub fn place_daily_note(state: &mut AppState, note: DailyNote, fresh_uid: String)
    ensures
        final(state)@ == daily_loaded(old(state)@, note@, fresh_uid@),
{
    let mut note = note;
    if note.title.as_str().is_empty() {
        note.title = format_roam_daily_title(note.date);
    }
    ensure_block(&mut note, fresh_uid);
    let ghost d = state@.days;
    let mut pos: usize = 0;
    proof {
        assert(d.skip(0) =~= d);
        lemma_date_pos(d, note.date);
    }
    while pos < state.days.len() && !state.days[pos].date.is_before(&note.date)
        invariant
            pos <= state.days.len(),
            *state == *old(state),
            d == state@.days,
            date_pos(d, note.date) == pos + date_pos(d.skip(pos as int), note.date),
        decreases state.days.len() - pos,
    {
        proof {
            crate::blocks::lemma_skip_step(d, pos as int);
        }
        pos += 1;
    }
    proof {
        if pos < state.days.len() {
            crate::blocks::lemma_skip_step(d, pos as int);
        } else {
            assert(d.skip(pos as int) =~= Seq::<DailyNoteView>::empty());
        }
    }
    state.days.insert(pos, note);
    state.loading = false;
    state.loading_more = false;
    state.status_message = None;
    proof {
        assert(state@.days =~= d.insert(pos as int, note@));
    }
}

/// Takes in the daily note `note`: it goes to its place among the days, and
/// nothing is awaited any more. A note without blocks gets one empty block
/// with a uid made from the time.
pub fn handle_daily_note_loaded(state: &mut AppState, note: DailyNote)
    ensures
        exists|nanos: nat|
            final(state)@ == daily_loaded(old(state)@, note@, #[trigger] uid_text(nanos)),
{
    let uid = generate_uid();
    place_daily_note(state, note, uid);
}

/// Place of the first page of the day `date`.
pub open spec fn same_day_pos(days: Seq<DailyNoteView>, date: Date) -> Option<int>
    decreases days.len(),
{
    if days.len() == 0 {
        None
    } else if days[0].date == date {
        Some(0)
    } else {
        match same_day_pos(days.skip(1), date) {
            Some(k) => Some(k + 1),
            None => None,
        }
    }
}

/// The state after the daily note `note` has been fetched anew: it takes
/// the place of the page of its day, where one is loaded. The cursor and
/// what is being edited stay as they are.
pub open spec fn refreshed(s: AppStateView, note: DailyNoteView) -> AppStateView {
    match same_day_pos(s.days, note.date) {
        Some(k) => AppStateView { days: s.days.update(k, note), ..s },
        None => s,
    }
}

/// Takes in the daily note `note` that was fetched anew: where it differs
/// from the page of its day, it takes its place.
pub fn handle_refresh_loaded(state: &mut AppState, note: DailyNote)
    ensures
        final(state)@ == refreshed(old(state)@, note@),
{
    let ghost d = state@.days;
    let mut pos: usize = 0;
    proof {
        assert(d.skip(0) =~= d);
    }
    while pos < state.days.len()
        invariant
            pos <= state.days.len(),
            *state == *old(state),
            d == state@.days,
            same_day_pos(d, note.date) == crate::tree::moved_on(
                same_day_pos(d.skip(pos as int), note.date),
                pos as int,
            ),
        decreases state.days.len() - pos,
    {
        proof {
            crate::blocks::lemma_skip_step(d, pos as int);
        }
        if state.days[pos].date == note.date {
            if !state.days[pos].same_as(&note) {
                state.days.remove(pos);
                state.days.insert(pos, note);
                proof {
                    assert(state@.days =~= d.update(pos as int, note@));
                }
            } else {
                proof {
                    assert(d.update(pos as int, note@) =~= d);
                }
            }
            return;
        }
        pos += 1;
    }
}

/// The state after the page `note` has been loaded: it is all that is
/// shown, with the cursor on its first row.
pub open spec fn page_loaded(s: AppStateView, note: DailyNoteView, uid: Seq<char>) -> AppStateView {
    AppStateView {
        days: seq![taken_in(note, uid, false)],
        selected_block: 0,
        cursor_col: 0,
        loading: false,
        loading_more: false,
        status_message: None,
        ..s
    }
}

/// Takes in the page `note`, with `fresh_uid` for the block that a page
/// without blocks gets.
pub fn place_page(state: &mut AppState, note: DailyNote, fresh_uid: String)
    ensures
        final(state)@ == page_loaded(old(state)@, note@, fresh_uid@),
{
    let mut note = note;
    ensure_block(&mut note, fresh_uid);
    let mut days: Vec<DailyNote> = Vec::new();
    days.push(note);
    state.days = days;
    state.selected_block = 0;
    state.cursor_col = 0;
    state.loading = false;
    state.loading_more = false;
    state.status_message = None;
    proof {
        assert(state@.days =~= seq![note@]);
    }
}

/// Takes in the page `note`: it is all that is shown. A page without
/// blocks gets one empty block with a uid made from the time.
pub fn handle_page_loaded(state: &mut AppState, note: DailyNote)
    ensures
        exists|nanos: nat|
            final(state)@ == page_loaded(old(state)@, note@, #[trigger] uid_text(nanos)),
{
    let uid = generate_uid();
    place_page(state, note, uid);
}

/// Shows the error `error`: nothing is awaited any more.
pub fn handle_api_error(state: &mut AppState, error: ErrorInfo)
    ensures
        final(state)@ == (AppStateView {
            loading: false,
            loading_more: false,
            error_popup: Some(popup_for(error)),
            ..old(state)@
        }),
{
    state.loading = false;
    state.loading_more = false;
    state.error_popup = Some(ErrorPopup::from_error_info(&error));
}

/// The views of a list of groups of references.
pub open spec fn group_views(s: Seq<LinkedRefGroup>) -> Seq<LinkedRefGroupView> {
    Seq::new(s.len(), |i: int| s[i]@)
}

/// Takes in the references to the page `page_title`.
pub fn handle_linked_refs_loaded(state: &mut AppState, page_title: String, groups: Vec<LinkedRefGroup>)
    ensures
        final(state)@ == (AppStateView {
            linked_refs: put(
                old(state)@.linked_refs,
                page_title@,
                LinkedRefsView { groups: group_views(groups@), collapsed: false, loading: false },
            ),
            ..old(state)@
        }),
{
    let section = LinkedRefsState { groups, collapsed: false, loading: false };
    assert(section@.groups =~= group_views(groups@));
    state.linked_refs.insert(page_title, section);
}

/// Takes in the text `text` of the block `uid`, which was asked for: the
/// text is kept for the uid, which is awaited no more.
pub fn handle_block_ref_resolved(state: &mut AppState, uid: String, text: String)
    ensures
        final(state)@ == (AppStateView {
            block_ref_cache: put(old(state)@.block_ref_cache, uid@, text@),
            pending_block_refs: without(old(state)@.pending_block_refs, uid@),
            ..old(state)@
        }),
{
    state.pending_block_refs.remove(uid.as_str());
    state.block_ref_cache.insert(uid, text);
}

/// Whether something is open above the outline: an error, the help, a
/// picker of links, a search, the switcher of pages, or a menu of the edit
/// session.
pub open spec fn overlay_open(s: AppStateView) -> bool {
    ||| s.error_popup is Some
    ||| s.show_help
    ||| s.link_picker is Some
    ||| s.search is Some
    ||| s.quick_switcher is Some
    ||| s.autocomplete is Some
    ||| s.slash_menu is Some
}

/// Whether the outline is left alone: the daily notes are shown, no block is
/// being edited and nothing is open above the outline.
pub open spec fn idle(s: AppStateView) -> bool {
    s.input_mode == InputView::Normal && !overlay_open(s) && s.view_mode == ViewModeView::DailyNotes
}

/// The count of idle ticks after one more tick: it starts anew while the
/// outline is not left alone, and once the pages are fetched anew.
pub open spec fn ticked(s: AppStateView) -> nat {
    if !idle(s) {
        0
    } else if refresh_due(s) {
        0
    } else if s.refresh_counter < u32::MAX {
        s.refresh_counter + 1
    } else {
        s.refresh_counter
    }
}

/// Idle ticks after which the pages are fetched anew.
pub open spec fn refresh_after() -> nat {
    120
}

/// Whether the daily notes are to be fetched anew at this tick: the outline
/// is left alone, nothing is awaited, and enough ticks have passed.
pub open spec fn refresh_due(s: AppStateView) -> bool {
    &&& idle(s)
    &&& s.refresh_counter + 1 >= refresh_after()
    &&& !s.loading
    &&& !s.loading_more
}

/// Whether something is open above the outline.
pub fn has_overlay(state: &AppState) -> (r: bool)
    ensures
        r == overlay_open(state@),
{
    state.error_popup.is_some() || state.show_help || state.link_picker.is_some()
        || state.search.is_some() || state.quick_switcher.is_some() || state.autocomplete.is_some()
        || state.slash_menu.is_some()
}

/// Counts one tick of the timer. Returns whether the daily notes are to be
/// fetched anew. A refresh never comes between the keys of an edit or of
/// what is open above the outline: the count starts anew at each tick while
/// the outline is not left alone.
pub fn on_tick(state: &mut AppState) -> (r: bool)
    ensures
        r == refresh_due(old(state)@),
        final(state)@ == (AppStateView { refresh_counter: ticked(old(state)@), ..old(state)@ }),
{
    if !state.input_mode.is_normal() || has_overlay(state) || !state.view_mode.is_daily_notes() {
        state.refresh_counter = 0;
        false
    } else {
        if state.refresh_counter < u32::MAX {
            state.refresh_counter += 1;
        }
        if state.refresh_counter >= 120 && !state.loading && !state.loading_more {
            state.refresh_counter = 0;
            true
        } else {
            false
        }
    }
}

/// Who takes the next key.
#[derive(Debug, Clone, Copy, PartialEq, Eq, Structural)]
pub enum KeyRoute {
    /// The error shown is closed by any key.
    DismissError,
    /// The help shown is closed by any key.
    CloseHelp,
    LinkPicker,
    Search,
    Insert,
    Normal,
}

/// Who takes the next key: an error before the help, that before the choice
/// of a link, that before the search, that before the edit of a block.
pub open spec fn route_of(s: AppStateView) -> KeyRoute {
    if s.error_popup is Some {
        KeyRoute::DismissError
    } else if s.show_help {
        KeyRoute::CloseHelp
    } else if s.link_picker is Some {
        KeyRoute::LinkPicker
    } else if s.search is Some {
        KeyRoute::Search
    } else if s.input_mode != InputView::Normal {
        KeyRoute::Insert
    } else {
        KeyRoute::Normal
    }
}

/// Who takes the next key.
pub fn route_key(state: &AppState) -> (r: KeyRoute)
    ensures
        r == route_of(state@),
{
    if state.error_popup.is_some() {
        KeyRoute::DismissError
    } else if state.show_help {
        KeyRoute::CloseHelp
    } else if state.link_picker.is_some() {
        KeyRoute::LinkPicker
    } else if state.search.is_some() {
        KeyRoute::Search
    } else if !state.input_mode.is_normal() {
        KeyRoute::Insert
    } else {
        KeyRoute::Normal
    }
}

} // verus!

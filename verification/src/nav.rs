use crate::state::{
    AppState, AppStateView, LoadRequest, LoadView, SnapshotView, ViewMode, ViewModeView,
    ViewSnapshot,
};
use crate::text::push_str;
use crate::types::clone_days;
use vstd::prelude::*;

verus! {

/// Views kept to return to, at most.
pub open spec fn history_cap() -> nat {
    50
}

/// The view that the state shows now.
pub open spec fn snapshot_of(s: AppStateView) -> SnapshotView {
    SnapshotView { view_mode: s.view_mode, days: s.days, selected_block: s.selected_block }
}

/// The history after the view shown now has been added where the state
/// stands in it: what lay ahead is dropped, and the oldest view goes where
/// more than [`history_cap`] would be kept.
pub open spec fn pushed_history(s: AppStateView) -> Seq<SnapshotView> {
    let kept = if s.nav_index <= s.nav_history.len() {
        s.nav_history.take(s.nav_index as int)
    } else {
        s.nav_history
    };
    let grown = kept.push(snapshot_of(s));
    if grown.len() > history_cap() {
        grown.remove(0)
    } else {
        grown
    }
}

/// The state after [`pushed_history`]: it stands at the end of the history.
pub open spec fn pushed(s: AppStateView) -> AppStateView {
    AppStateView {
        nav_history: pushed_history(s),
        nav_index: pushed_history(s).len(),
        ..s
    }
}

/// The state after the view shown now has been written into the place of the
/// history where the state stands; unchanged where it stands at the end.
pub open spec fn saved(s: AppStateView) -> AppStateView {
    if s.nav_index < s.nav_history.len() {
        AppStateView { nav_history: s.nav_history.update(s.nav_index as int, snapshot_of(s)), ..s }
    } else {
        s
    }
}

/// The state after the view at the place of the history where the state
/// stands is shown again; unchanged where it stands at the end. Nothing is
/// fetched: the references are dropped and come anew.
pub open spec fn restored(s: AppStateView) -> AppStateView {
    if s.nav_index < s.nav_history.len() {
        let snap = s.nav_history[s.nav_index as int];
        AppStateView {
            view_mode: snap.view_mode,
            days: snap.days,
            selected_block: snap.selected_block,
            cursor_col: 0,
            loading: false,
            loading_more: false,
            linked_refs: Seq::empty(),
            status_message: None,
            ..s
        }
    } else {
        s
    }
}

/// The state after a jump to the page `title` has begun: the view left is in
/// the history, nothing is shown, and the page is awaited.
pub open spec fn navigated(s: AppStateView, title: Seq<char>) -> AppStateView {
    AppStateView {
        view_mode: ViewModeView::Page { title: title },
        days: Seq::empty(),
        selected_block: 0,
        cursor_col: 0,
        loading: true,
        linked_refs: Seq::empty(),
        status_message: Some("Loading "@ + title + "..."@),
        ..pushed(s)
    }
}

/// The view that `state` shows now.
pub fn take_snapshot(state: &AppState) -> (snap: ViewSnapshot)
    ensures
        snap@ == snapshot_of(state@),
{
    ViewSnapshot {
        view_mode: state.view_mode.clone(),
        days: clone_days(&state.days),
        selected_block: state.selected_block,
    }
}

/// Adds the view shown now to the history, where the state stands in it.
pub fn push_nav_snapshot(state: &mut AppState)
    ensures
        final(state)@ == pushed(old(state)@),
{
    let ghost before = state@;
    let snapshot = take_snapshot(state);
    if state.nav_index <= state.nav_history.len() {
        state.nav_history.truncate(state.nav_index);
    }
    state.nav_history.push(snapshot);
    state.nav_index = state.nav_history.len();
    if state.nav_history.len() > 50 {
        state.nav_history.remove(0);
        state.nav_index = state.nav_history.len();
    }
    proof {
        assert(state@.nav_history =~= pushed_history(before));
    }
}

/// Writes the view shown now into the place of the history where the state
/// stands.
pub fn save_nav_snapshot_at_index(state: &mut AppState)
    ensures
        final(state)@ == saved(old(state)@),
{
    let ghost before = state@;
    if state.nav_index < state.nav_history.len() {
        let snapshot = take_snapshot(state);
        let index = state.nav_index;
        state.nav_history.remove(index);
        state.nav_history.insert(index, snapshot);
        proof {
            assert(state@.nav_history =~= before.nav_history.update(
                index as int,
                snapshot_of(before),
            ));
        }
    }
}

/// Shows again the view at the place of the history where the state stands.
pub fn restore_nav_snapshot(state: &mut AppState)
    ensures
        final(state)@ == restored(old(state)@),
{
    if state.nav_index < state.nav_history.len() {
        let snapshot = state.nav_history[state.nav_index].clone();
        state.view_mode = snapshot.view_mode;
        state.days = snapshot.days;
        state.selected_block = snapshot.selected_block;
        state.cursor_col = 0;
        state.loading = false;
        state.loading_more = false;
        state.linked_refs.clear();
        state.status_message = None;
    }
}

/// Begins a jump to the page `title`: the view left goes to the history and
/// the page is asked for.
pub fn navigate_to_page(state: &mut AppState, title: String) -> (r: LoadRequest)
    ensures
        final(state)@ == navigated(old(state)@, title@),
        r@ == LoadView::Page(title@),
{
    push_nav_snapshot(state);
    state.view_mode = ViewMode::Page { title: title.clone() };
    state.days.clear();
    state.selected_block = 0;
    state.cursor_col = 0;
    state.loading = true;
    state.linked_refs.clear();
    let mut message = "Loading ".to_owned();
    push_str(&mut message, title.as_str());
    push_str(&mut message, "...");
    state.status_message = Some(message);
    proof {
        assert(state@.days =~= Seq::empty());
    }
    LoadRequest::Page(title)
}

} // verus!

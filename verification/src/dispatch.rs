use crate::actions::{acted, action_load, created, handle_action, uid_text};
use crate::bounds::sound;
use crate::date::{some_day, Date};
use crate::input::{
    delete_write, deleted, handle_delete_block, handle_insert_key, handle_link_picker_key,
    handle_search_key, insert_key, insert_key_write, link_picker_key, link_picker_load,
    reads_clock, search_key,
};
use crate::keymap::{bound, KeybindingMap};
use crate::keys::{mods_none, KeyCode, KeyEvent};
use crate::preset::Action;
use crate::reconcile::{route_key, route_of, KeyRoute};
use crate::state::{AppState, AppStateView, LoadRequest, LoadView};
use crate::types::{WriteAction, WriteView};
use crate::undo::{apply_redo, apply_undo, redone, undo_outcome, undone};
use vstd::prelude::*;

verus! {

/// What is to be done outside after a key: nothing, a write to the remote
/// service, or the fetch of a page.
#[derive(Debug, PartialEq)]
pub enum Effect {
    Nothing,
    Write(WriteAction),
    Load(LoadRequest),
}

/// What an [`Effect`] is, as a mathematical value.
pub enum EffectView {
    Nothing,
    Write(WriteView),
    Load(LoadView),
}

impl View for Effect {
    type V = EffectView;

    open spec fn view(&self) -> EffectView {
        match self {
            Effect::Nothing => EffectView::Nothing,
            Effect::Write(w) => EffectView::Write(w@),
            Effect::Load(l) => EffectView::Load(l@),
        }
    }
}

/// The effect of a write, where there is one.
pub open spec fn write_effect(w: Option<WriteView>) -> EffectView {
    match w {
        Some(w) => EffectView::Write(w),
        None => EffectView::Nothing,
    }
}

/// The effect of a fetch, where there is one.
pub open spec fn load_effect(l: Option<LoadView>) -> EffectView {
    match l {
        Some(l) => EffectView::Load(l),
        None => EffectView::Nothing,
    }
}

/// Whether `key` is a plain `d`: twice in a row it deletes a block.
pub open spec fn is_plain_d(key: KeyEvent) -> bool {
    key.code == KeyCode::Char('d') && key.modifiers == mods_none()
}

/// The state after the action `action`, with `uid` for a block that it
/// creates.
pub open spec fn after_action(s: AppStateView, action: Action, uid: Seq<char>) -> AppStateView {
    if action == Action::CreateBlock {
        created(s, uid)
    } else {
        acted(s, action)
    }
}

/// The state after a key while nothing is being edited and nothing is open,
/// with `uid` for a block that it creates. A second `d` deletes the block
/// under the cursor; a first `d` that is bound to nothing is kept in mind;
/// any other key does what it is bound to.
pub open spec fn normal_key(
    s: AppStateView,
    key: KeyEvent,
    b: Seq<(KeyEvent, Action)>,
    uid: Seq<char>,
) -> AppStateView {
    let cleared = AppStateView { pending_key: None, ..s };
    if s.pending_key == Some('d') && is_plain_d(key) {
        deleted(cleared)
    } else if s.pending_key == Some('d') {
        match bound(b, key) {
            Some(action) => after_action(cleared, action, uid),
            None => cleared,
        }
    } else if is_plain_d(key) && bound(b, key) is None {
        AppStateView { pending_key: Some('d'), ..s }
    } else {
        match bound(b, key) {
            Some(action) => if action == Action::Undo {
                undone(s)
            } else if action == Action::Redo {
                redone(s)
            } else {
                after_action(s, action, uid)
            },
            None => s,
        }
    }
}

/// What is to be done outside after a key while nothing is being edited
/// and nothing is open.
pub open spec fn normal_effect(s: AppStateView, key: KeyEvent, b: Seq<(KeyEvent, Action)>) -> EffectView {
    let cleared = AppStateView { pending_key: None, ..s };
    if s.pending_key == Some('d') && is_plain_d(key) {
        write_effect(delete_write(cleared))
    } else if s.pending_key == Some('d') {
        match bound(b, key) {
            Some(action) => load_effect(action_load(cleared, action)),
            None => EffectView::Nothing,
        }
    } else if is_plain_d(key) && bound(b, key) is None {
        EffectView::Nothing
    } else {
        match bound(b, key) {
            Some(action) => if action == Action::Undo {
                if s.undo_stack.len() > 0 {
                    EffectView::Write(
                        undo_outcome(s.days, s.linked_refs, s.selected_block, s.undo_stack.last()).write,
                    )
                } else {
                    EffectView::Nothing
                }
            } else if action == Action::Redo {
                if s.redo_stack.len() > 0 {
                    EffectView::Write(
                        undo_outcome(s.days, s.linked_refs, s.selected_block, s.redo_stack.last()).write,
                    )
                } else {
                    EffectView::Nothing
                }
            } else {
                load_effect(action_load(s, action))
            },
            None => EffectView::Nothing,
        }
    }
}

/// The effect of a write, where there is one.
pub fn effect_of_write(w: Option<WriteAction>) -> (e: Effect)
    ensures
        e@ == write_effect(
            match w {
                Some(w) => Some(w@),
                None => None,
            },
        ),
{
    match w {
        Some(w) => Effect::Write(w),
        None => Effect::Nothing,
    }
}

/// The effect of a fetch, where there is one.
pub fn effect_of_load(l: Option<LoadRequest>) -> (e: Effect)
    ensures
        e@ == load_effect(
            match l {
                Some(l) => Some(l@),
                None => None,
            },
        ),
{
    match l {
        Some(l) => Effect::Load(l),
        None => Effect::Nothing,
    }
}

/// Handles a key while nothing is being edited and nothing is open. Returns
/// what is to be done outside.
#[verifier::rlimit(60)]
pub fn handle_normal_key(state: &mut AppState, key: &KeyEvent, keybindings: &KeybindingMap) -> (e: Effect)
    requires
        sound(old(state)@),
    ensures
        exists|nanos: nat|
            final(state)@ == normal_key(old(state)@, *key, keybindings@, #[trigger] uid_text(nanos)),
        e@ == normal_effect(old(state)@, *key, keybindings@),
{
    let ghost before = state@;
    let ghost b = keybindings@;
    let plain_d = key.code == KeyCode::Char('d') && key.modifiers.is_none();
    let pending_d = match state.pending_key {
        Some(c) => c == 'd',
        None => false,
    };
    if pending_d && plain_d {
        state.pending_key = None;
        let w = handle_delete_block(state);
        proof {
            assert(state@ == normal_key(before, *key, b, uid_text(0)));
        }
        effect_of_write(w)
    } else if pending_d {
        state.pending_key = None;
        let ghost cleared = state@;
        match keybindings.resolve(key) {
            Some(action) => {
                let l = handle_action(state, action);
                proof {
                    if *action == Action::CreateBlock {
                        let nanos = choose|nanos: nat|
                            state@ == created(cleared, #[trigger] uid_text(nanos));
                        assert(state@ == normal_key(before, *key, b, uid_text(nanos)));
                    } else {
                        assert(state@ == normal_key(before, *key, b, uid_text(0)));
                    }
                }
                effect_of_load(l)
            },
            None => {
                proof {
                    assert(state@ == normal_key(before, *key, b, uid_text(0)));
                }
                Effect::Nothing
            },
        }
    } else if plain_d && keybindings.resolve(key).is_none() {
        state.pending_key = Some('d');
        proof {
            assert(state@ == normal_key(before, *key, b, uid_text(0)));
        }
        Effect::Nothing
    } else {
        match keybindings.resolve(key) {
            Some(action) => {
                if *action == Action::Undo {
                    let w = apply_undo(state);
                    proof {
                        assert(state@ == normal_key(before, *key, b, uid_text(0)));
                    }
                    effect_of_write(w)
                } else if *action == Action::Redo {
                    let w = apply_redo(state);
                    proof {
                        assert(state@ == normal_key(before, *key, b, uid_text(0)));
                    }
                    effect_of_write(w)
                } else {
                    let l = handle_action(state, action);
                    proof {
                        if *action == Action::CreateBlock {
                            let nanos = choose|nanos: nat|
                                state@ == created(before, #[trigger] uid_text(nanos));
                            assert(state@ == normal_key(before, *key, b, uid_text(nanos)));
                        } else {
                            assert(state@ == normal_key(before, *key, b, uid_text(0)));
                        }
                    }
                    effect_of_load(l)
                }
            },
            None => {
                proof {
                    assert(state@ == normal_key(before, *key, b, uid_text(0)));
                }
                Effect::Nothing
            },
        }
    }
}

/// The state after a key, with `uid` for a block that it creates: a key
/// closes an error or the help, or goes to what is open, to the edit of a
/// block, or to the keys of the outline, in this order.
pub open spec fn key_pressed(
    s: AppStateView,
    key: KeyEvent,
    b: Seq<(KeyEvent, Action)>,
    uid: Seq<char>,
    day: Date,
    time: Seq<char>,
) -> AppStateView {
    match route_of(s) {
        KeyRoute::DismissError => AppStateView { error_popup: None, ..s },
        KeyRoute::CloseHelp => AppStateView { show_help: false, ..s },
        KeyRoute::LinkPicker => link_picker_key(s, key),
        KeyRoute::Search => search_key(s, key),
        KeyRoute::Insert => insert_key(s, key, day, time),
        KeyRoute::Normal => normal_key(s, key, b, uid),
    }
}

/// What is to be done outside after a key.
pub open spec fn key_effect(s: AppStateView, key: KeyEvent, b: Seq<(KeyEvent, Action)>) -> EffectView {
    match route_of(s) {
        KeyRoute::DismissError => EffectView::Nothing,
        KeyRoute::CloseHelp => EffectView::Nothing,
        KeyRoute::LinkPicker => load_effect(link_picker_load(s, key)),
        KeyRoute::Search => EffectView::Nothing,
        KeyRoute::Insert => write_effect(insert_key_write(s, key)),
        KeyRoute::Normal => normal_effect(s, key, b),
    }
}

/// Handles a key. Returns what is to be done outside: a write to the remote
/// service or the fetch of a page.
pub fn handle_key(state: &mut AppState, key: &KeyEvent, keybindings: &KeybindingMap) -> (e: Effect)
    requires
        sound(old(state)@),
    ensures
        exists|nanos: nat, day: Date, time: Seq<char>|
            day.is_valid() && final(state)@ == #[trigger] key_pressed(
                old(state)@,
                *key,
                keybindings@,
                uid_text(nanos),
                day,
                time,
            ),
        e@ == key_effect(old(state)@, *key, keybindings@),
{
    let ghost before = state@;
    let ghost b = keybindings@;
    match route_key(state) {
        KeyRoute::DismissError => {
            state.error_popup = None;
            proof {
                assert(state@ == key_pressed(before, *key, b, uid_text(0), some_day(), Seq::empty()));
            }
            Effect::Nothing
        },
        KeyRoute::CloseHelp => {
            state.show_help = false;
            proof {
                assert(state@ == key_pressed(before, *key, b, uid_text(0), some_day(), Seq::empty()));
            }
            Effect::Nothing
        },
        KeyRoute::LinkPicker => {
            let l = handle_link_picker_key(state, key);
            proof {
                assert(state@ == key_pressed(before, *key, b, uid_text(0), some_day(), Seq::empty()));
            }
            effect_of_load(l)
        },
        KeyRoute::Search => {
            handle_search_key(state, key);
            proof {
                assert(state@ == key_pressed(before, *key, b, uid_text(0), some_day(), Seq::empty()));
            }
            Effect::Nothing
        },
        KeyRoute::Insert => {
            let w = handle_insert_key(state, key);
            proof {
                if reads_clock(before, *key) {
                    let (day, time) = choose|day: Date, time: Seq<char>|
                        day.is_valid() && state@ == #[trigger] insert_key(before, *key, day, time);
                    assert(state@ == key_pressed(before, *key, b, uid_text(0), day, time));
                } else {
                    assert(state@ == key_pressed(before, *key, b, uid_text(0), some_day(), Seq::empty()));
                }
            }
            effect_of_write(w)
        },
        KeyRoute::Normal => {
            let e = handle_normal_key(state, key, keybindings);
            proof {
                let nanos = choose|nanos: nat|
                    state@ == normal_key(before, *key, b, #[trigger] uid_text(nanos));
                assert(state@ == key_pressed(before, *key, b, uid_text(nanos), some_day(), Seq::empty()));
            }
            e
        },
    }
}

} // verus!

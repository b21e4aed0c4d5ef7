use crate::actions::uid_text;
use crate::blocks::lemma_skip_step;
use crate::bounds::{is_sound, sound};
use crate::date::Date;
use crate::dispatch::{handle_key, key_effect, key_pressed, Effect, EffectView};
use crate::error::popup_for;
use crate::keymap::KeybindingMap;
use crate::keys::KeyEvent;
use crate::maps::{lookup, member, put, without};
use crate::markdown::texts_of_days;
use crate::preset::Action;
use crate::reconcile::{
    daily_loaded, group_views, handle_api_error, handle_block_ref_resolved,
    handle_daily_note_loaded, handle_linked_refs_loaded, handle_page_loaded, handle_refresh_loaded,
    on_tick, page_loaded, refresh_due, refreshed, ticked,
};
use crate::state::{
    AppMessage, AppState, AppStateView, LinkedRefsState, LinkedRefsView, LoadRequest, LoadView,
    ViewMode, ViewModeView,
};
use crate::tasks::{collect_unresolved_refs, refs_from_days};
use crate::types::{days_view, strings_view, DailyNote, DailyNoteView, WriteAction, WriteView};
use vstd::prelude::*;

verus! {

/// What is to be done outside after a message has been taken in.
#[derive(Debug, PartialEq)]
pub enum Command {
    /// Send the write to the remote service.
    Write(WriteAction),
    /// Fetch the page.
    Load(LoadRequest),
    /// Fetch the text of the block with the uid.
    ResolveBlockRef(String),
    /// Fetch the references to the page with the title.
    FetchLinkedRefs(String),
    /// Fetch the daily note of the day anew.
    RefreshDailyNote(Date),
}

/// What a [`Command`] is, as a mathematical value.
pub enum CommandView {
    Write(WriteView),
    Load(LoadView),
    ResolveBlockRef(Seq<char>),
    FetchLinkedRefs(Seq<char>),
    RefreshDailyNote(Date),
}

impl View for Command {
    type V = CommandView;

    open spec fn view(&self) -> CommandView {
        match self {
            Command::Write(w) => CommandView::Write(w@),
            Command::Load(l) => CommandView::Load(l@),
            Command::ResolveBlockRef(uid) => CommandView::ResolveBlockRef(uid@),
            Command::FetchLinkedRefs(title) => CommandView::FetchLinkedRefs(title@),
            Command::RefreshDailyNote(date) => CommandView::RefreshDailyNote(*date),
        }
    }
}

/// The views of a list of commands.
pub open spec fn commands_view(c: Seq<Command>) -> Seq<CommandView> {
    Seq::new(c.len(), |i: int| c[i]@)
}

/// The command that an effect of a key asks for, where it asks for one.
pub open spec fn effect_commands(e: EffectView) -> Seq<CommandView> {
    match e {
        EffectView::Nothing => Seq::empty(),
        EffectView::Write(w) => seq![CommandView::Write(w)],
        EffectView::Load(l) => seq![CommandView::Load(l)],
    }
}

/// The command that the effect `e` of a key asks for, where it asks for one.
pub fn commands_of(e: Effect) -> (c: Vec<Command>)
    ensures
        commands_view(c@) == effect_commands(e@),
{
    let mut c: Vec<Command> = Vec::new();
    match e {
        Effect::Nothing => {},
        Effect::Write(w) => {
            c.push(Command::Write(w));
        },
        Effect::Load(l) => {
            c.push(Command::Load(l));
        },
    }
    assert(commands_view(c@) =~= effect_commands(e@));
    c
}

/// The uids that the pages refer to and whose text is neither that of a
/// block of the pages, nor cached, nor awaited.
pub open spec fn unresolved(s: AppStateView) -> Seq<Seq<char>> {
    refs_from_days(
        s.days,
        texts_of_days(s.days, Seq::empty()),
        s.block_ref_cache,
        s.pending_block_refs,
        Seq::empty(),
    )
}

/// The awaited uids `pending` together with `uids`, each held once.
pub open spec fn awaiting(pending: Seq<Seq<char>>, uids: Seq<Seq<char>>) -> Seq<Seq<char>>
    decreases uids.len(),
{
    if uids.len() == 0 {
        pending
    } else if member(pending, uids[0]) {
        awaiting(pending, uids.skip(1))
    } else {
        awaiting(pending.push(uids[0]), uids.skip(1))
    }
}

/// One command for each of `uids`: to fetch the text of its block.
pub open spec fn resolve_commands(uids: Seq<Seq<char>>) -> Seq<CommandView> {
    Seq::new(uids.len(), |i: int| CommandView::ResolveBlockRef(uids[i]))
}

/// Awaits the texts of the blocks `uids`, and adds to `out` the commands
/// that fetch them.
pub fn await_block_refs(state: &mut AppState, uids: &Vec<String>, out: &mut Vec<Command>)
    ensures
        final(state)@ == (AppStateView {
            pending_block_refs: awaiting(old(state)@.pending_block_refs, strings_view(uids@)),
            ..old(state)@
        }),
        commands_view(final(out)@) == commands_view(old(out)@) + resolve_commands(
            strings_view(uids@),
        ),
{
    let ghost u = strings_view(uids@);
    let ghost before = state@;
    let mut i: usize = 0;
    proof {
        assert(u.skip(0) =~= u);
        assert(commands_view(out@) =~= commands_view(old(out)@) + resolve_commands(u.take(0)));
    }
    while i < uids.len()
        invariant
            i <= uids.len(),
            u == strings_view(uids@),
            u.len() == uids.len(),
            state@ == (AppStateView { pending_block_refs: state@.pending_block_refs, ..before }),
            awaiting(before.pending_block_refs, u) == awaiting(
                state@.pending_block_refs,
                u.skip(i as int),
            ),
            commands_view(out@) == commands_view(old(out)@) + resolve_commands(u.take(i as int)),
        decreases uids.len() - i,
    {
        proof {
            lemma_skip_step(u, i as int);
            assert(u[i as int] == uids@[i as int]@);
        }
        let ghost sent = commands_view(out@);
        state.pending_block_refs.insert(uids[i].clone());
        out.push(Command::ResolveBlockRef(uids[i].clone()));
        proof {
            assert(commands_view(out@) =~= sent.push(CommandView::ResolveBlockRef(u[i as int])));
            assert(commands_view(out@) =~= commands_view(old(out)@) + resolve_commands(
                u.take(i + 1),
            ));
        }
        i += 1;
    }
    proof {
        assert(u.take(u.len() as int) =~= u);
    }
}

/// A section of references that has been asked for and has not come yet.
pub open spec fn loading_section() -> LinkedRefsView {
    LinkedRefsView { groups: Seq::empty(), collapsed: false, loading: true }
}

/// The titles of the pages `days` for which `lr` holds no references, each
/// once, in the order of the pages.
pub open spec fn asked_titles(lr: Seq<(Seq<char>, LinkedRefsView)>, days: Seq<DailyNoteView>) -> Seq<
    Seq<char>,
>
    decreases days.len(),
{
    if days.len() == 0 {
        Seq::empty()
    } else if lookup(lr, days[0].title) is Some {
        asked_titles(lr, days.skip(1))
    } else {
        seq![days[0].title] + asked_titles(
            put(lr, days[0].title, loading_section()),
            days.skip(1),
        )
    }
}

/// The references `lr`, with a section that is awaited for each page of
/// `days` for which there was none.
pub open spec fn with_asked(lr: Seq<(Seq<char>, LinkedRefsView)>, days: Seq<DailyNoteView>) -> Seq<
    (Seq<char>, LinkedRefsView),
>
    decreases days.len(),
{
    if days.len() == 0 {
        lr
    } else if lookup(lr, days[0].title) is Some {
        with_asked(lr, days.skip(1))
    } else {
        with_asked(put(lr, days[0].title, loading_section()), days.skip(1))
    }
}

/// One command for each of `titles`: to fetch the references to its page.
pub open spec fn fetch_commands(titles: Seq<Seq<char>>) -> Seq<CommandView> {
    Seq::new(titles.len(), |i: int| CommandView::FetchLinkedRefs(titles[i]))
}

/// Awaits the references to each page for which none are held, and adds to
/// `out` the commands that fetch them.
pub fn ask_linked_refs(state: &mut AppState, out: &mut Vec<Command>)
    ensures
        final(state)@ == (AppStateView {
            linked_refs: with_asked(old(state)@.linked_refs, old(state)@.days),
            ..old(state)@
        }),
        commands_view(final(out)@) == commands_view(old(out)@) + fetch_commands(
            asked_titles(old(state)@.linked_refs, old(state)@.days),
        ),
{
    let ghost before = state@;
    let ghost d = state@.days;
    let ghost start = commands_view(out@);
    let ghost titles: Seq<Seq<char>> = Seq::empty();
    let mut i: usize = 0;
    proof {
        assert(d.skip(0) =~= d);
        assert(start + fetch_commands(titles) =~= start);
        assert(titles + asked_titles(before.linked_refs, d) =~= asked_titles(before.linked_refs, d));
    }
    while i < state.days.len()
        invariant
            i <= state.days.len(),
            d == state@.days,
            d.len() == state.days.len(),
            start == commands_view(old(out)@),
            state@ == (AppStateView { linked_refs: state@.linked_refs, ..before }),
            with_asked(before.linked_refs, d) == with_asked(state@.linked_refs, d.skip(i as int)),
            asked_titles(before.linked_refs, d) == titles + asked_titles(
                state@.linked_refs,
                d.skip(i as int),
            ),
            commands_view(out@) == start + fetch_commands(titles),
        decreases state.days.len() - i,
    {
        proof {
            lemma_skip_step(d, i as int);
            assert(d[i as int] == state.days@[i as int]@);
        }
        if !state.linked_refs.contains_key(state.days[i].title.as_str()) {
            let title = state.days[i].title.clone();
            let ghost sent = commands_view(out@);
            let ghost rest = asked_titles(
                put(state@.linked_refs, title@, loading_section()),
                d.skip(i + 1),
            );
            let section = LinkedRefsState { groups: Vec::new(), collapsed: false, loading: true };
            assert(section@.groups =~= Seq::empty());
            state.linked_refs.insert(title.clone(), section);
            out.push(Command::FetchLinkedRefs(title));
            proof {
                assert(titles + (seq![title@] + rest) =~= titles.push(title@) + rest);
                assert(commands_view(out@) =~= sent.push(CommandView::FetchLinkedRefs(title@)));
                assert(commands_view(out@) =~= start + fetch_commands(titles.push(title@)));
                titles = titles.push(title@);
            }
        }
        i += 1;
    }
    proof {
        assert(titles + Seq::<Seq<char>>::empty() =~= titles);
    }
}

/// The state and the commands after a daily note has been taken in and the
/// state is `s`: the texts that its pages refer to and that are not known
/// are awaited, and so are the references to each page that has none.
pub open spec fn after_daily_note(s: AppStateView) -> (AppStateView, Seq<CommandView>) {
    (
        AppStateView {
            pending_block_refs: awaiting(s.pending_block_refs, unresolved(s)),
            linked_refs: with_asked(s.linked_refs, s.days),
            ..s
        },
        resolve_commands(unresolved(s)) + fetch_commands(asked_titles(s.linked_refs, s.days)),
    )
}

/// The state and the commands after a page has been taken in and the state
/// is `s`: the texts that it refers to and that are not known are awaited,
/// and so are the references to the page, where a page is what is shown.
pub open spec fn after_page(s: AppStateView) -> (AppStateView, Seq<CommandView>) {
    match s.view_mode {
        ViewModeView::Page { title } => (
            AppStateView {
                pending_block_refs: awaiting(s.pending_block_refs, unresolved(s)),
                linked_refs: put(s.linked_refs, title, loading_section()),
                ..s
            },
            resolve_commands(unresolved(s)).push(CommandView::FetchLinkedRefs(title)),
        ),
        ViewModeView::DailyNotes => (
            AppStateView {
                pending_block_refs: awaiting(s.pending_block_refs, unresolved(s)),
                ..s
            },
            resolve_commands(unresolved(s)),
        ),
    }
}

/// One command for each page: to fetch the daily note of its day anew.
pub open spec fn refresh_commands(days: Seq<DailyNoteView>) -> Seq<CommandView> {
    Seq::new(days.len(), |i: int| CommandView::RefreshDailyNote(days[i].date))
}

/// The commands that fetch the daily notes of all pages anew.
pub fn refresh_all(days: &Vec<DailyNote>) -> (c: Vec<Command>)
    ensures
        commands_view(c@) == refresh_commands(days_view(days@)),
{
    let mut c: Vec<Command> = Vec::new();
    let mut i: usize = 0;
    while i < days.len()
        invariant
            i <= days.len(),
            c.len() == i,
            forall|j: int| 0 <= j < i ==> c@[j]@ == CommandView::RefreshDailyNote(days@[j].date),
        decreases days.len() - i,
    {
        c.push(Command::RefreshDailyNote(days[i].date));
        i += 1;
    }
    assert(commands_view(c@) =~= refresh_commands(days_view(days@)));
    c
}

/// The state and the commands after the message `msg` has been taken in:
/// `uid` is the uid of a block that is made on the way, `day` the day that it
/// is and `time` the time of day.
pub open spec fn stepped(
    s: AppStateView,
    msg: AppMessage,
    b: Seq<(KeyEvent, Action)>,
    uid: Seq<char>,
    day: Date,
    time: Seq<char>,
) -> (AppStateView, Seq<CommandView>) {
    match msg {
        AppMessage::Key(key) => (
            key_pressed(s, key, b, uid, day, time),
            effect_commands(key_effect(s, key, b)),
        ),
        AppMessage::DailyNoteLoaded(note) => after_daily_note(daily_loaded(s, note@, uid)),
        AppMessage::PageLoaded(note) => after_page(page_loaded(s, note@, uid)),
        AppMessage::RefreshLoaded(note) => (refreshed(s, note@), Seq::empty()),
        AppMessage::BlockRefResolved(block_uid, text) => (
            AppStateView {
                block_ref_cache: put(s.block_ref_cache, block_uid@, text@),
                pending_block_refs: without(s.pending_block_refs, block_uid@),
                ..s
            },
            Seq::empty(),
        ),
        AppMessage::LinkedRefsLoaded(title, groups) => (
            AppStateView {
                linked_refs: put(
                    s.linked_refs,
                    title@,
                    LinkedRefsView { groups: group_views(groups@), collapsed: false, loading: false },
                ),
                ..s
            },
            Seq::empty(),
        ),
        AppMessage::ApiError(error) => (
            AppStateView {
                loading: false,
                loading_more: false,
                error_popup: Some(popup_for(error)),
                ..s
            },
            Seq::empty(),
        ),
        AppMessage::Tick => (
            AppStateView { refresh_counter: ticked(s), ..s },
            if refresh_due(s) {
                refresh_commands(s.days)
            } else {
                Seq::empty()
            },
        ),
    }
}

/// Whether `msg` can be taken in while the state is `s`: a key asks that
/// the state be [`sound`].
pub open spec fn accepts(s: AppStateView, msg: AppMessage) -> bool {
    msg is Key ==> sound(s)
}

/// Takes in one message: a key, an answer of the remote service, or a tick
/// of the timer. Returns what is to be done outside, in order; nothing is
/// done and nothing returned for a key while the state is not [`sound`].
pub fn handle_message(state: &mut AppState, msg: AppMessage, keybindings: &KeybindingMap) -> (r:
    Option<Vec<Command>>)
    ensures
        !accepts(old(state)@, msg) ==> r is None && final(state)@ == old(state)@,
        accepts(old(state)@, msg) ==> r is Some && exists|nanos: nat, day: Date, time: Seq<char>|
            day.is_valid() && #[trigger] stepped(
                old(state)@,
                msg,
                keybindings@,
                uid_text(nanos),
                day,
                time,
            ) == (final(state)@, commands_view(r.unwrap()@)),
{
    let ghost before = state@;
    let ghost m = msg;
    let ghost b = keybindings@;
    let ghost nothing: Seq<char> = Seq::empty();
    match msg {
        AppMessage::Key(key) => {
            if !is_sound(state) {
                return None;
            }
            let e = handle_key(state, &key, keybindings);
            let c = commands_of(e);
            proof {
                let (nanos, day, time) = choose|nanos: nat, day: Date, time: Seq<char>|
                    day.is_valid() && state@ == #[trigger] key_pressed(
                        before,
                        key,
                        b,
                        uid_text(nanos),
                        day,
                        time,
                    );
                assert(stepped(before, m, b, uid_text(nanos), day, time) == (
                    state@,
                    commands_view(c@),
                ));
            }
            Some(c)
        },
        AppMessage::DailyNoteLoaded(note) => {
            let ghost n = note@;
            handle_daily_note_loaded(state, note);
            let ghost loaded = state@;
            let uids = collect_unresolved_refs(state);
            let mut c: Vec<Command> = Vec::new();
            proof {
                assert(commands_view(c@) =~= Seq::<CommandView>::empty());
            }
            await_block_refs(state, &uids, &mut c);
            ask_linked_refs(state, &mut c);
            proof {
                let nanos = choose|nanos: nat|
                    loaded == daily_loaded(before, n, #[trigger] uid_text(nanos));
                let uid = uid_text(nanos);
                assert(commands_view(c@) =~= after_daily_note(loaded).1);
                assert(stepped(before, m, b, uid, crate::date::some_day(), nothing) == (
                    state@,
                    commands_view(c@),
                ));
            }
            Some(c)
        },
        AppMessage::PageLoaded(note) => {
            let ghost n = note@;
            handle_page_loaded(state, note);
            let ghost loaded = state@;
            let uids = collect_unresolved_refs(state);
            let mut c: Vec<Command> = Vec::new();
            proof {
                assert(commands_view(c@) =~= Seq::<CommandView>::empty());
            }
            await_block_refs(state, &uids, &mut c);
            let title = match &state.view_mode {
                ViewMode::Page { title } => Some(title.clone()),
                ViewMode::DailyNotes => None,
            };
            match title {
                Some(title) => {
                    let ghost sent = commands_view(c@);
                    let section = LinkedRefsState {
                        groups: Vec::new(),
                        collapsed: false,
                        loading: true,
                    };
                    assert(section@.groups =~= Seq::empty());
                    state.linked_refs.insert(title.clone(), section);
                    c.push(Command::FetchLinkedRefs(title));
                    proof {
                        assert(commands_view(c@) =~= sent.push(
                            CommandView::FetchLinkedRefs(title@),
                        ));
                    }
                },
                None => {},
            }
            proof {
                let nanos = choose|nanos: nat|
                    loaded == page_loaded(before, n, #[trigger] uid_text(nanos));
                let uid = uid_text(nanos);
                assert(commands_view(c@) =~= after_page(loaded).1);
                assert(stepped(before, m, b, uid, crate::date::some_day(), nothing) == (
                    state@,
                    commands_view(c@),
                ));
            }
            Some(c)
        },
        AppMessage::RefreshLoaded(note) => {
            handle_refresh_loaded(state, note);
            let c: Vec<Command> = Vec::new();
            proof {
                assert(commands_view(c@) =~= Seq::<CommandView>::empty());
                assert(stepped(before, m, b, uid_text(0), crate::date::some_day(), nothing) == (
                    state@,
                    commands_view(c@),
                ));
            }
            Some(c)
        },
        AppMessage::BlockRefResolved(uid, text) => {
            handle_block_ref_resolved(state, uid, text);
            let c: Vec<Command> = Vec::new();
            proof {
                assert(commands_view(c@) =~= Seq::<CommandView>::empty());
                assert(stepped(before, m, b, uid_text(0), crate::date::some_day(), nothing) == (
                    state@,
                    commands_view(c@),
                ));
            }
            Some(c)
        },
        AppMessage::LinkedRefsLoaded(title, groups) => {
            handle_linked_refs_loaded(state, title, groups);
            let c: Vec<Command> = Vec::new();
            proof {
                assert(commands_view(c@) =~= Seq::<CommandView>::empty());
                assert(stepped(before, m, b, uid_text(0), crate::date::some_day(), nothing) == (
                    state@,
                    commands_view(c@),
                ));
            }
            Some(c)
        },
        AppMessage::ApiError(error) => {
            handle_api_error(state, error);
            let c: Vec<Command> = Vec::new();
            proof {
                assert(commands_view(c@) =~= Seq::<CommandView>::empty());
                assert(stepped(before, m, b, uid_text(0), crate::date::some_day(), nothing) == (
                    state@,
                    commands_view(c@),
                ));
            }
            Some(c)
        },
        AppMessage::Tick => {
            let due = on_tick(state);
            let c = if due {
                refresh_all(&state.days)
            } else {
                Vec::new()
            };
            proof {
                if !due {
                    assert(commands_view(c@) =~= Seq::<CommandView>::empty());
                }
                assert(stepped(before, m, b, uid_text(0), crate::date::some_day(), nothing) == (
                    state@,
                    commands_view(c@),
                ));
            }
            Some(c)
        },
    }
}

} // verus!

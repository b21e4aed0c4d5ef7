use crate::keys::{mods_alt, mods_control, mods_none, mods_shift, KeyCode, KeyEvent, KeyModifiers};
use crate::maps::StringMap;
use crate::markdown::{trim_range, trimmed};
use crate::preset::{action_named, hint_of, Action};
use crate::text::{
    decimal, from_chars, lowercase, push_char, push_decimal, push_str, str_eq, to_chars,
    to_lowercase,
};
use vstd::prelude::*;

verus! {

/// Control and shift together.
pub open spec fn mods_control_shift() -> KeyModifiers {
    KeyModifiers { shift: true, control: true, alt: false, other: false }
}

/// The key `code` alone.
pub fn plain(code: KeyCode) -> (k: KeyEvent)
    ensures
        k == (KeyEvent { code: code, modifiers: mods_none() }),
{
    KeyEvent::new(code, KeyModifiers::none())
}

/// The key `code` with control.
pub fn with_control(code: KeyCode) -> (k: KeyEvent)
    ensures
        k == (KeyEvent { code: code, modifiers: mods_control() }),
{
    KeyEvent::new(code, KeyModifiers::control())
}

/// The key `code` with alt.
pub fn with_alt(code: KeyCode) -> (k: KeyEvent)
    ensures
        k == (KeyEvent { code: code, modifiers: mods_alt() }),
{
    KeyEvent::new(code, KeyModifiers::alt())
}

/// The key `code` with shift.
pub fn with_shift(code: KeyCode) -> (k: KeyEvent)
    ensures
        k == (KeyEvent { code: code, modifiers: mods_shift() }),
{
    KeyEvent::new(code, KeyModifiers::shift())
}

/// The key `code` with control and shift.
pub fn with_control_shift(code: KeyCode) -> (k: KeyEvent)
    ensures
        k == (KeyEvent { code: code, modifiers: mods_control_shift() }),
{
    KeyEvent::new(code, KeyModifiers::control().union(KeyModifiers::shift()))
}

/// The action that the first binding of `key` gives.
pub open spec fn bound(b: Seq<(KeyEvent, Action)>, key: KeyEvent) -> Option<Action>
    decreases b.len(),
{
    if b.len() == 0 {
        None
    } else if b[0].0 == key {
        Some(b[0].1)
    } else {
        bound(b.skip(1), key)
    }
}

/// Place of the first binding of `key`.
pub open spec fn binding_pos(b: Seq<(KeyEvent, Action)>, key: KeyEvent) -> Option<int>
    decreases b.len(),
{
    if b.len() == 0 {
        None
    } else if b[0].0 == key {
        Some(0)
    } else {
        match binding_pos(b.skip(1), key) {
            Some(k) => Some(k + 1),
            None => None,
        }
    }
}

/// The bindings after `key` has been bound to `action`: in place of what it
/// was bound to, or at the end.
pub open spec fn bind(b: Seq<(KeyEvent, Action)>, key: KeyEvent, action: Action) -> Seq<
    (KeyEvent, Action),
> {
    match binding_pos(b, key) {
        Some(i) => b.update(i, (key, action)),
        None => b.push((key, action)),
    }
}

/// The bindings without those of `action`.
pub open spec fn unbind(b: Seq<(KeyEvent, Action)>, action: Action) -> Seq<(KeyEvent, Action)>
    decreases b.len(),
{
    if b.len() == 0 {
        b
    } else if b.last().1 == action {
        unbind(b.drop_last(), action)
    } else {
        unbind(b.drop_last(), action).push(b.last())
    }
}

/// The bindings after the keys of `list` have been bound in turn.
pub open spec fn bind_all(b: Seq<(KeyEvent, Action)>, list: Seq<(KeyEvent, Action)>) -> Seq<
    (KeyEvent, Action),
>
    decreases list.len(),
{
    if list.len() == 0 {
        b
    } else {
        bind_all(bind(b, list[0].0, list[0].1), list.skip(1))
    }
}

/// The key of the first binding of `action`.
pub open spec fn key_for(b: Seq<(KeyEvent, Action)>, action: Action) -> Option<KeyEvent>
    decreases b.len(),
{
    if b.len() == 0 {
        None
    } else if b[0].1 == action {
        Some(b[0].0)
    } else {
        key_for(b.skip(1), action)
    }
}

pub proof fn lemma_binding_pos(b: Seq<(KeyEvent, Action)>, key: KeyEvent)
    ensures
        binding_pos(b, key) matches Some(i) ==> 0 <= i < b.len() && b[i].0 == key && bound(b, key)
            == Some(b[i].1),
        binding_pos(b, key) is None ==> bound(b, key) is None,
    decreases b.len(),
{
    if b.len() > 0 && b[0].0 != key {
        lemma_binding_pos(b.skip(1), key);
    }
}

/// What the keys are bound to.
#[derive(Debug)]
pub struct KeybindingMap {
    pub bindings: Vec<(KeyEvent, Action)>,
}

impl View for KeybindingMap {
    type V = Seq<(KeyEvent, Action)>;

    open spec fn view(&self) -> Seq<(KeyEvent, Action)> {
        self.bindings@
    }
}

impl KeybindingMap {
    /// Place of the first binding of `key`.
    pub fn position(&self, key: &KeyEvent) -> (r: Option<usize>)
        ensures
            match r {
                Some(i) => binding_pos(self@, *key) == Some(i as int) && i < self.bindings.len(),
                None => binding_pos(self@, *key) is None,
            },
    {
        let ghost b = self@;
        let mut i: usize = 0;
        proof {
            assert(b.skip(0) =~= b);
        }
        while i < self.bindings.len()
            invariant
                i <= self.bindings.len(),
                b == self@,
                binding_pos(b, *key) == crate::tree::moved_on(
                    binding_pos(b.skip(i as int), *key),
                    i as int,
                ),
            decreases self.bindings.len() - i,
        {
            proof {
                crate::blocks::lemma_skip_step(b, i as int);
            }
            if self.bindings[i].0 == *key {
                return Some(i);
            }
            i += 1;
        }
        None
    }

    /// Binds `key` to `action`, in place of what it was bound to.
    pub fn insert(&mut self, key: KeyEvent, action: Action)
        ensures
            final(self)@ == bind(old(self)@, key, action),
    {
        match self.position(&key) {
            Some(i) => {
                self.bindings.remove(i);
                self.bindings.insert(i, (key, action));
                assert(self@ =~= old(self)@.update(i as int, (key, action)));
            },
            None => {
                self.bindings.push((key, action));
            },
        }
    }

    /// Takes away the bindings of `action`.
    pub fn remove_action(&mut self, action: Action)
        ensures
            final(self)@ == unbind(old(self)@, action),
    {
        let ghost b = self@;
        let mut kept: Vec<(KeyEvent, Action)> = Vec::new();
        let mut i: usize = 0;
        proof {
            assert(b.take(0) =~= Seq::<(KeyEvent, Action)>::empty());
        }
        while i < self.bindings.len()
            invariant
                i <= self.bindings.len(),
                b == self@,
                kept@ == unbind(b.take(i as int), action),
            decreases self.bindings.len() - i,
        {
            proof {
                assert(b.take(i + 1).drop_last() =~= b.take(i as int));
                assert(b.take(i + 1).last() == b[i as int]);
            }
            if self.bindings[i].1 != action {
                kept.push(self.bindings[i]);
            }
            i += 1;
        }
        proof {
            assert(b.take(b.len() as int) =~= b);
        }
        self.bindings = kept;
    }

    /// The bindings that come of binding the keys of `list` in turn.
    pub fn from_list(list: &Vec<(KeyEvent, Action)>) -> (map: Self)
        ensures
            map@ == bind_all(Seq::empty(), list@),
    {
        let mut map = KeybindingMap { bindings: Vec::new() };
        let mut i: usize = 0;
        proof {
            assert(list@.skip(0) =~= list@);
        }
        while i < list.len()
            invariant
                i <= list.len(),
                bind_all(Seq::empty(), list@) == bind_all(map@, list@.skip(i as int)),
            decreases list.len() - i,
        {
            proof {
                crate::blocks::lemma_skip_step(list@, i as int);
            }
            map.insert(list[i].0, list[i].1);
            i += 1;
        }
        map
    }

    /// The action that `key` is bound to.
    pub fn resolve(&self, key: &KeyEvent) -> (r: Option<&Action>)
        ensures
            match r {
                Some(a) => bound(self@, *key) == Some(*a),
                None => bound(self@, *key) is None,
            },
    {
        proof {
            lemma_binding_pos(self@, *key);
        }
        match self.position(key) {
            Some(i) => Some(&self.bindings[i].1),
            None => None,
        }
    }

    /// The key of the first binding of `action`.
    pub fn key_of(&self, action: Action) -> (r: Option<KeyEvent>)
        ensures
            r == key_for(self@, action),
    {
        let ghost b = self@;
        let mut i: usize = 0;
        proof {
            assert(b.skip(0) =~= b);
        }
        while i < self.bindings.len()
            invariant
                i <= self.bindings.len(),
                b == self@,
                key_for(b, action) == key_for(b.skip(i as int), action),
            decreases self.bindings.len() - i,
        {
            proof {
                crate::blocks::lemma_skip_step(b, i as int);
            }
            if self.bindings[i].1 == action {
                return Some(self.bindings[i].0);
            }
            i += 1;
        }
        None
    }

    /// The hints for the actions that matter most: for each that has a key,
    /// the key and the word for the action.
    pub fn hints(&self) -> (r: Vec<(String, &'static str)>)
        ensures
            crate::state::hints_view(r@) == hints_of(self@),
    {
        let mut hints: Vec<(String, &'static str)> = Vec::new();
        proof {
            assert(crate::state::hints_view(hints@) =~= Seq::<(Seq<char>, Seq<char>)>::empty());
        }
        self.add_hint(&mut hints, Action::Quit);
        self.add_hint(&mut hints, Action::Search);
        self.add_hint(&mut hints, Action::Help);
        self.add_hint(&mut hints, Action::MoveUp);
        self.add_hint(&mut hints, Action::MoveDown);
        hints
    }

    /// Adds the hint for `action`, where it has a key.
    pub fn add_hint(&self, hints: &mut Vec<(String, &'static str)>, action: Action)
        ensures
            crate::state::hints_view(final(hints)@) == with_hint(
                crate::state::hints_view(old(hints)@),
                self@,
                action,
            ),
    {
        match self.key_of(action) {
            Some(key) => {
                let text = format_key_event(&key);
                let word = action.hint_text();
                hints.push((text, word));
                assert(crate::state::hints_view(hints@) =~= crate::state::hints_view(
                    old(hints)@,
                ).push((text@, word@)));
            },
            None => {},
        }
    }
}

/// `hints` with the hint for `action`, where it has a key.
pub open spec fn with_hint(
    hints: Seq<(Seq<char>, Seq<char>)>,
    b: Seq<(KeyEvent, Action)>,
    action: Action,
) -> Seq<(Seq<char>, Seq<char>)> {
    match key_for(b, action) {
        Some(key) => hints.push((key_text(key), hint_of(action))),
        None => hints,
    }
}

/// The hints for quit, search, help, up and down, as far as they have keys.
pub open spec fn hints_of(b: Seq<(KeyEvent, Action)>) -> Seq<(Seq<char>, Seq<char>)> {
    with_hint(
        with_hint(
            with_hint(
                with_hint(with_hint(Seq::empty(), b, Action::Quit), b, Action::Search),
                b,
                Action::Help,
            ),
            b,
            Action::MoveUp,
        ),
        b,
        Action::MoveDown,
    )
}

/// How a key is written in a hint: the modifiers held, then the key, with
/// `+` between them.
pub open spec fn key_text(key: KeyEvent) -> Seq<char> {
    (if key.modifiers.control {
        "Ctrl+"@
    } else {
        Seq::empty()
    }) + (if key.modifiers.alt {
        "Alt+"@
    } else {
        Seq::empty()
    }) + (if key.modifiers.shift {
        "Shift+"@
    } else {
        Seq::empty()
    }) + code_text(key.code)
}

/// How the key itself is written.
pub open spec fn code_text(code: KeyCode) -> Seq<char> {
    match code {
        KeyCode::Char(c) => seq![c],
        KeyCode::Enter => "Enter"@,
        KeyCode::Esc => "Esc"@,
        KeyCode::Tab => "Tab"@,
        KeyCode::BackTab => "BackTab"@,
        KeyCode::Backspace => "Backspace"@,
        KeyCode::Delete => "Delete"@,
        KeyCode::Up => "↑"@,
        KeyCode::Down => "↓"@,
        KeyCode::Left => "←"@,
        KeyCode::Right => "→"@,
        KeyCode::Home => "Home"@,
        KeyCode::End => "End"@,
        KeyCode::PageUp => "PageUp"@,
        KeyCode::PageDown => "PageDown"@,
        KeyCode::F(n) => seq!['F'] + decimal(n as nat),
        _ => "?"@,
    }
}

/// How `key` is written in a hint.
pub fn format_key_event(key: &KeyEvent) -> (s: String)
    ensures
        s@ == key_text(*key),
{
    let mut s = String::new();
    if key.modifiers.control {
        push_str(&mut s, "Ctrl+");
    }
    if key.modifiers.alt {
        push_str(&mut s, "Alt+");
    }
    if key.modifiers.shift {
        push_str(&mut s, "Shift+");
    }
    let ghost head = s@;
    match key.code {
        KeyCode::Char(c) => push_char(&mut s, c),
        KeyCode::Enter => push_str(&mut s, "Enter"),
        KeyCode::Esc => push_str(&mut s, "Esc"),
        KeyCode::Tab => push_str(&mut s, "Tab"),
        KeyCode::BackTab => push_str(&mut s, "BackTab"),
        KeyCode::Backspace => push_str(&mut s, "Backspace"),
        KeyCode::Delete => push_str(&mut s, "Delete"),
        KeyCode::Up => push_str(&mut s, "↑"),
        KeyCode::Down => push_str(&mut s, "↓"),
        KeyCode::Left => push_str(&mut s, "←"),
        KeyCode::Right => push_str(&mut s, "→"),
        KeyCode::Home => push_str(&mut s, "Home"),
        KeyCode::End => push_str(&mut s, "End"),
        KeyCode::PageUp => push_str(&mut s, "PageUp"),
        KeyCode::PageDown => push_str(&mut s, "PageDown"),
        KeyCode::F(n) => {
            push_char(&mut s, 'F');
            push_decimal(&mut s, n as u64);
        },
        _ => push_str(&mut s, "?"),
    }
    proof {
        assert(s@ =~= head + code_text(key.code));
        assert(head =~= key_text(*key).subrange(0, head.len() as int));
        assert(s@ =~= key_text(*key));
    }
    s
}

/// The keys of the preset `vim`, in the order in which they are bound.
pub open spec fn vim_list() -> Seq<(KeyEvent, Action)> {
    seq![
        (KeyEvent { code: KeyCode::Char('k'), modifiers: mods_none() }, Action::MoveUp),
        (KeyEvent { code: KeyCode::Up, modifiers: mods_none() }, Action::MoveUp),
        (KeyEvent { code: KeyCode::Char('j'), modifiers: mods_none() }, Action::MoveDown),
        (KeyEvent { code: KeyCode::Down, modifiers: mods_none() }, Action::MoveDown),
        (KeyEvent { code: KeyCode::Char('h'), modifiers: mods_none() }, Action::Collapse),
        (KeyEvent { code: KeyCode::Char('l'), modifiers: mods_none() }, Action::Expand),
        (KeyEvent { code: KeyCode::Enter, modifiers: mods_none() }, Action::Enter),
        (KeyEvent { code: KeyCode::Esc, modifiers: mods_none() }, Action::Exit),
        (KeyEvent { code: KeyCode::Char('/'), modifiers: mods_none() }, Action::Search),
        (KeyEvent { code: KeyCode::Char('q'), modifiers: mods_none() }, Action::Quit),
        (KeyEvent { code: KeyCode::Char('b'), modifiers: mods_none() }, Action::ToggleSidebar),
        (KeyEvent { code: KeyCode::Char('?'), modifiers: mods_none() }, Action::Help),
        (KeyEvent { code: KeyCode::Char('o'), modifiers: mods_control() }, Action::QuickSwitcher),
        (KeyEvent { code: KeyCode::Tab, modifiers: mods_none() }, Action::Indent),
        (KeyEvent { code: KeyCode::BackTab, modifiers: mods_shift() }, Action::Unindent),
        (KeyEvent { code: KeyCode::Char('i'), modifiers: mods_none() }, Action::EditBlock),
        (KeyEvent { code: KeyCode::Char('o'), modifiers: mods_none() }, Action::CreateBlock),
        (KeyEvent { code: KeyCode::Char('u'), modifiers: mods_none() }, Action::Undo),
        (KeyEvent { code: KeyCode::Char('r'), modifiers: mods_control() }, Action::Redo),
        (KeyEvent { code: KeyCode::Char('N'), modifiers: mods_shift() }, Action::NextDay),
        (KeyEvent { code: KeyCode::Char('P'), modifiers: mods_shift() }, Action::PrevDay),
        (KeyEvent { code: KeyCode::Char('G'), modifiers: mods_shift() }, Action::GoDaily),
        (KeyEvent { code: KeyCode::PageDown, modifiers: mods_none() }, Action::NextDay),
        (KeyEvent { code: KeyCode::PageUp, modifiers: mods_none() }, Action::PrevDay),
        (KeyEvent { code: KeyCode::Left, modifiers: mods_none() }, Action::CursorLeft),
        (KeyEvent { code: KeyCode::Right, modifiers: mods_none() }, Action::CursorRight),
    ]
}

/// The keys of the preset `vim`.
pub fn vim_preset() -> (map: KeybindingMap)
    ensures
        map@ == bind_all(Seq::empty(), vim_list()),
{
    let mut list: Vec<(KeyEvent, Action)> = Vec::new();
    list.push((plain(KeyCode::Char('k')), Action::MoveUp));
    list.push((plain(KeyCode::Up), Action::MoveUp));
    list.push((plain(KeyCode::Char('j')), Action::MoveDown));
    list.push((plain(KeyCode::Down), Action::MoveDown));
    list.push((plain(KeyCode::Char('h')), Action::Collapse));
    list.push((plain(KeyCode::Char('l')), Action::Expand));
    list.push((plain(KeyCode::Enter), Action::Enter));
    list.push((plain(KeyCode::Esc), Action::Exit));
    list.push((plain(KeyCode::Char('/')), Action::Search));
    list.push((plain(KeyCode::Char('q')), Action::Quit));
    list.push((plain(KeyCode::Char('b')), Action::ToggleSidebar));
    list.push((plain(KeyCode::Char('?')), Action::Help));
    list.push((with_control(KeyCode::Char('o')), Action::QuickSwitcher));
    list.push((plain(KeyCode::Tab), Action::Indent));
    list.push((with_shift(KeyCode::BackTab), Action::Unindent));
    list.push((plain(KeyCode::Char('i')), Action::EditBlock));
    list.push((plain(KeyCode::Char('o')), Action::CreateBlock));
    list.push((plain(KeyCode::Char('u')), Action::Undo));
    list.push((with_control(KeyCode::Char('r')), Action::Redo));
    list.push((with_shift(KeyCode::Char('N')), Action::NextDay));
    list.push((with_shift(KeyCode::Char('P')), Action::PrevDay));
    list.push((with_shift(KeyCode::Char('G')), Action::GoDaily));
    list.push((plain(KeyCode::PageDown), Action::NextDay));
    list.push((plain(KeyCode::PageUp), Action::PrevDay));
    list.push((plain(KeyCode::Left), Action::CursorLeft));
    list.push((plain(KeyCode::Right), Action::CursorRight));
    assert(list@ =~= vim_list());
    KeybindingMap::from_list(&list)
}

/// The keys of the preset `emacs`, in the order in which they are bound.
pub open spec fn emacs_list() -> Seq<(KeyEvent, Action)> {
    seq![
        (KeyEvent { code: KeyCode::Char('p'), modifiers: mods_control() }, Action::MoveUp),
        (KeyEvent { code: KeyCode::Up, modifiers: mods_none() }, Action::MoveUp),
        (KeyEvent { code: KeyCode::Char('n'), modifiers: mods_control() }, Action::MoveDown),
        (KeyEvent { code: KeyCode::Down, modifiers: mods_none() }, Action::MoveDown),
        (KeyEvent { code: KeyCode::Char('b'), modifiers: mods_control() }, Action::Collapse),
        (KeyEvent { code: KeyCode::Char('f'), modifiers: mods_control() }, Action::Expand),
        (KeyEvent { code: KeyCode::Enter, modifiers: mods_none() }, Action::Enter),
        (KeyEvent { code: KeyCode::Char('g'), modifiers: mods_control() }, Action::Exit),
        (KeyEvent { code: KeyCode::Char('s'), modifiers: mods_control() }, Action::Search),
        (KeyEvent { code: KeyCode::Char('q'), modifiers: mods_control() }, Action::Quit),
        (KeyEvent { code: KeyCode::Char('h'), modifiers: mods_control() }, Action::Help),
        (KeyEvent { code: KeyCode::Tab, modifiers: mods_none() }, Action::Indent),
        (KeyEvent { code: KeyCode::BackTab, modifiers: mods_shift() }, Action::Unindent),
        (KeyEvent { code: KeyCode::Enter, modifiers: mods_none() }, Action::EditBlock),
        (KeyEvent { code: KeyCode::Enter, modifiers: mods_alt() }, Action::CreateBlock),
        (KeyEvent { code: KeyCode::Char('/'), modifiers: mods_control() }, Action::Undo),
        (KeyEvent { code: KeyCode::Char('/'), modifiers: mods_control_shift() }, Action::Redo),
        (KeyEvent { code: KeyCode::Char('n'), modifiers: mods_alt() }, Action::NextDay),
        (KeyEvent { code: KeyCode::Char('p'), modifiers: mods_alt() }, Action::PrevDay),
        (KeyEvent { code: KeyCode::Char('d'), modifiers: mods_control() }, Action::GoDaily),
        (KeyEvent { code: KeyCode::PageDown, modifiers: mods_none() }, Action::NextDay),
        (KeyEvent { code: KeyCode::PageUp, modifiers: mods_none() }, Action::PrevDay),
        (KeyEvent { code: KeyCode::Left, modifiers: mods_none() }, Action::CursorLeft),
        (KeyEvent { code: KeyCode::Right, modifiers: mods_none() }, Action::CursorRight),
    ]
}

/// The keys of the preset `emacs`.
pub fn emacs_preset() -> (map: KeybindingMap)
    ensures
        map@ == bind_all(Seq::empty(), emacs_list()),
{
    let mut list: Vec<(KeyEvent, Action)> = Vec::new();
    list.push((with_control(KeyCode::Char('p')), Action::MoveUp));
    list.push((plain(KeyCode::Up), Action::MoveUp));
    list.push((with_control(KeyCode::Char('n')), Action::MoveDown));
    list.push((plain(KeyCode::Down), Action::MoveDown));
    list.push((with_control(KeyCode::Char('b')), Action::Collapse));
    list.push((with_control(KeyCode::Char('f')), Action::Expand));
    list.push((plain(KeyCode::Enter), Action::Enter));
    list.push((with_control(KeyCode::Char('g')), Action::Exit));
    list.push((with_control(KeyCode::Char('s')), Action::Search));
    list.push((with_control(KeyCode::Char('q')), Action::Quit));
    list.push((with_control(KeyCode::Char('h')), Action::Help));
    list.push((plain(KeyCode::Tab), Action::Indent));
    list.push((with_shift(KeyCode::BackTab), Action::Unindent));
    list.push((plain(KeyCode::Enter), Action::EditBlock));
    list.push((with_alt(KeyCode::Enter), Action::CreateBlock));
    list.push((with_control(KeyCode::Char('/')), Action::Undo));
    list.push((with_control_shift(KeyCode::Char('/')), Action::Redo));
    list.push((with_alt(KeyCode::Char('n')), Action::NextDay));
    list.push((with_alt(KeyCode::Char('p')), Action::PrevDay));
    list.push((with_control(KeyCode::Char('d')), Action::GoDaily));
    list.push((plain(KeyCode::PageDown), Action::NextDay));
    list.push((plain(KeyCode::PageUp), Action::PrevDay));
    list.push((plain(KeyCode::Left), Action::CursorLeft));
    list.push((plain(KeyCode::Right), Action::CursorRight));
    assert(list@ =~= emacs_list());
    KeybindingMap::from_list(&list)
}

/// The keys of the preset `vscode`, in the order in which they are bound.
pub open spec fn vscode_list() -> Seq<(KeyEvent, Action)> {
    seq![
        (KeyEvent { code: KeyCode::Up, modifiers: mods_none() }, Action::MoveUp),
        (KeyEvent { code: KeyCode::Down, modifiers: mods_none() }, Action::MoveDown),
        (KeyEvent { code: KeyCode::Left, modifiers: mods_none() }, Action::CursorLeft),
        (KeyEvent { code: KeyCode::Right, modifiers: mods_none() }, Action::CursorRight),
        (KeyEvent { code: KeyCode::Left, modifiers: mods_control() }, Action::Collapse),
        (KeyEvent { code: KeyCode::Right, modifiers: mods_control() }, Action::Expand),
        (KeyEvent { code: KeyCode::Enter, modifiers: mods_none() }, Action::Enter),
        (KeyEvent { code: KeyCode::Esc, modifiers: mods_none() }, Action::Exit),
        (KeyEvent { code: KeyCode::Char('f'), modifiers: mods_control_shift() }, Action::Search),
        (KeyEvent { code: KeyCode::Char('q'), modifiers: mods_control() }, Action::Quit),
        (KeyEvent { code: KeyCode::Char('b'), modifiers: mods_control() }, Action::ToggleSidebar),
        (KeyEvent { code: KeyCode::F(1), modifiers: mods_none() }, Action::Help),
        (KeyEvent { code: KeyCode::Char('p'), modifiers: mods_control() }, Action::QuickSwitcher),
        (KeyEvent { code: KeyCode::Char('d'), modifiers: mods_control() }, Action::GoDaily),
        (KeyEvent { code: KeyCode::Tab, modifiers: mods_none() }, Action::Indent),
        (KeyEvent { code: KeyCode::BackTab, modifiers: mods_shift() }, Action::Unindent),
        (KeyEvent { code: KeyCode::Enter, modifiers: mods_none() }, Action::EditBlock),
        (KeyEvent { code: KeyCode::Enter, modifiers: mods_control() }, Action::CreateBlock),
        (KeyEvent { code: KeyCode::Char('z'), modifiers: mods_control() }, Action::Undo),
        (KeyEvent { code: KeyCode::Char('z'), modifiers: mods_control_shift() }, Action::Redo),
        (KeyEvent { code: KeyCode::Up, modifiers: mods_alt() }, Action::NextDay),
        (KeyEvent { code: KeyCode::Down, modifiers: mods_alt() }, Action::PrevDay),
        (KeyEvent { code: KeyCode::PageDown, modifiers: mods_none() }, Action::NextDay),
        (KeyEvent { code: KeyCode::PageUp, modifiers: mods_none() }, Action::PrevDay),
    ]
}

/// The keys of the preset `vscode`.
pub fn vscode_preset() -> (map: KeybindingMap)
    ensures
        map@ == bind_all(Seq::empty(), vscode_list()),
{
    let mut list: Vec<(KeyEvent, Action)> = Vec::new();
    list.push((plain(KeyCode::Up), Action::MoveUp));
    list.push((plain(KeyCode::Down), Action::MoveDown));
    list.push((plain(KeyCode::Left), Action::CursorLeft));
    list.push((plain(KeyCode::Right), Action::CursorRight));
    list.push((with_control(KeyCode::Left), Action::Collapse));
    list.push((with_control(KeyCode::Right), Action::Expand));
    list.push((plain(KeyCode::Enter), Action::Enter));
    list.push((plain(KeyCode::Esc), Action::Exit));
    list.push((with_control_shift(KeyCode::Char('f')), Action::Search));
    list.push((with_control(KeyCode::Char('q')), Action::Quit));
    list.push((with_control(KeyCode::Char('b')), Action::ToggleSidebar));
    list.push((plain(KeyCode::F(1)), Action::Help));
    list.push((with_control(KeyCode::Char('p')), Action::QuickSwitcher));
    list.push((with_control(KeyCode::Char('d')), Action::GoDaily));
    list.push((plain(KeyCode::Tab), Action::Indent));
    list.push((with_shift(KeyCode::BackTab), Action::Unindent));
    list.push((plain(KeyCode::Enter), Action::EditBlock));
    list.push((with_control(KeyCode::Enter), Action::CreateBlock));
    list.push((with_control(KeyCode::Char('z')), Action::Undo));
    list.push((with_control_shift(KeyCode::Char('z')), Action::Redo));
    list.push((with_alt(KeyCode::Up), Action::NextDay));
    list.push((with_alt(KeyCode::Down), Action::PrevDay));
    list.push((plain(KeyCode::PageDown), Action::NextDay));
    list.push((plain(KeyCode::PageUp), Action::PrevDay));
    assert(list@ =~= vscode_list());
    KeybindingMap::from_list(&list)
}

/// The keys of the preset `name`.
pub open spec fn preset_named(name: Seq<char>) -> Option<Seq<(KeyEvent, Action)>> {
    if name == "vim"@ {
        Some(bind_all(Seq::empty(), vim_list()))
    } else if name == "emacs"@ {
        Some(bind_all(Seq::empty(), emacs_list()))
    } else if name == "vscode"@ {
        Some(bind_all(Seq::empty(), vscode_list()))
    } else {
        None
    }
}

/// The keys of the preset `name`, a name in lower case.
pub fn preset_by_name(name: &str) -> (r: Option<KeybindingMap>)
    ensures
        match r {
            Some(m) => preset_named(name@) == Some(m@),
            None => preset_named(name@) is None,
        },
{
    if str_eq(name, "vim") {
        Some(vim_preset())
    } else if str_eq(name, "emacs") {
        Some(emacs_preset())
    } else if str_eq(name, "vscode") {
        Some(vscode_preset())
    } else {
        None
    }
}

/// The keys of the preset `name`, whatever the case of its letters.
pub fn get_preset(name: &str) -> (r: Option<KeybindingMap>)
    ensures
        match r {
            Some(m) => preset_named(lowercase(name@)) == Some(m@),
            None => preset_named(lowercase(name@)) is None,
        },
{
    let lower = to_lowercase(name);
    preset_by_name(lower.as_str())
}

/// Why a key or a set of keys cannot be used.
#[derive(Debug, PartialEq)]
pub enum KeyError {
    UnknownModifier { modifier: String, key: String },
    NoKeyCode { key: String },
    InvalidFunctionKey { key: String },
    FunctionKeyOutOfRange { number: u8 },
    UnknownKey { key: String },
    UnknownPreset { name: String },
    UnknownAction { name: String },
}

/// What a [`KeyError`] is, as a mathematical value.
pub enum KeyFault {
    UnknownModifier { modifier: Seq<char>, key: Seq<char> },
    NoKeyCode { key: Seq<char> },
    InvalidFunctionKey { key: Seq<char> },
    FunctionKeyOutOfRange { number: u8 },
    UnknownKey { key: Seq<char> },
    UnknownPreset { name: Seq<char> },
    UnknownAction { name: Seq<char> },
}

impl View for KeyError {
    type V = KeyFault;

    open spec fn view(&self) -> KeyFault {
        match self {
            KeyError::UnknownModifier { modifier, key } => KeyFault::UnknownModifier {
                modifier: modifier@,
                key: key@,
            },
            KeyError::NoKeyCode { key } => KeyFault::NoKeyCode { key: key@ },
            KeyError::InvalidFunctionKey { key } => KeyFault::InvalidFunctionKey { key: key@ },
            KeyError::FunctionKeyOutOfRange { number } => KeyFault::FunctionKeyOutOfRange {
                number: *number,
            },
            KeyError::UnknownKey { key } => KeyFault::UnknownKey { key: key@ },
            KeyError::UnknownPreset { name } => KeyFault::UnknownPreset { name: name@ },
            KeyError::UnknownAction { name } => KeyFault::UnknownAction { name: name@ },
        }
    }
}

/// What is said of a fault.
pub open spec fn fault_text(f: KeyFault) -> Seq<char> {
    match f {
        KeyFault::UnknownModifier { modifier, key } => "Unknown modifier '"@ + modifier
            + "' in key '"@ + key + "'"@,
        KeyFault::NoKeyCode { key } => "No key code found in '"@ + key + "'"@,
        KeyFault::InvalidFunctionKey { key } => "Invalid function key: "@ + key,
        KeyFault::FunctionKeyOutOfRange { number } => "Function key out of range: F"@ + decimal(
            number as nat,
        ),
        KeyFault::UnknownKey { key } => "Unknown key: "@ + key,
        KeyFault::UnknownPreset { name } => "Unknown keybinding preset: "@ + name,
        KeyFault::UnknownAction { name } => "Unknown action: "@ + name,
    }
}

impl KeyError {
    /// What is said of the error.
    pub fn message(&self) -> (s: String)
        ensures
            s@ == fault_text(self@),
    {
        match self {
            KeyError::UnknownModifier { modifier, key } => {
                let mut s = "Unknown modifier '".to_owned();
                push_str(&mut s, modifier.as_str());
                push_str(&mut s, "' in key '");
                push_str(&mut s, key.as_str());
                push_str(&mut s, "'");
                s
            },
            KeyError::NoKeyCode { key } => {
                let mut s = "No key code found in '".to_owned();
                push_str(&mut s, key.as_str());
                push_str(&mut s, "'");
                s
            },
            KeyError::InvalidFunctionKey { key } => {
                let mut s = "Invalid function key: ".to_owned();
                push_str(&mut s, key.as_str());
                s
            },
            KeyError::FunctionKeyOutOfRange { number } => {
                let mut s = "Function key out of range: F".to_owned();
                push_decimal(&mut s, *number as u64);
                s
            },
            KeyError::UnknownKey { key } => {
                let mut s = "Unknown key: ".to_owned();
                push_str(&mut s, key.as_str());
                s
            },
            KeyError::UnknownPreset { name } => {
                let mut s = "Unknown keybinding preset: ".to_owned();
                push_str(&mut s, name.as_str());
                s
            },
            KeyError::UnknownAction { name } => {
                let mut s = "Unknown action: ".to_owned();
                push_str(&mut s, name.as_str());
                s
            },
        }
    }
}

/// The key that a name in lower case stands for.
pub open spec fn named_key(lower: Seq<char>) -> Option<KeyCode> {
    if lower == "enter"@ {
        Some(KeyCode::Enter)
    }     else if lower == "return"@ {
        Some(KeyCode::Enter)
    }     else if lower == "esc"@ {
        Some(KeyCode::Esc)
    }     else if lower == "escape"@ {
        Some(KeyCode::Esc)
    }     else if lower == "tab"@ {
        Some(KeyCode::Tab)
    }     else if lower == "backspace"@ {
        Some(KeyCode::Backspace)
    }     else if lower == "bs"@ {
        Some(KeyCode::Backspace)
    }     else if lower == "delete"@ {
        Some(KeyCode::Delete)
    }     else if lower == "del"@ {
        Some(KeyCode::Delete)
    }     else if lower == "insert"@ {
        Some(KeyCode::Insert)
    }     else if lower == "ins"@ {
        Some(KeyCode::Insert)
    }     else if lower == "home"@ {
        Some(KeyCode::Home)
    }     else if lower == "end"@ {
        Some(KeyCode::End)
    }     else if lower == "pageup"@ {
        Some(KeyCode::PageUp)
    }     else if lower == "pgup"@ {
        Some(KeyCode::PageUp)
    }     else if lower == "pagedown"@ {
        Some(KeyCode::PageDown)
    }     else if lower == "pgdn"@ {
        Some(KeyCode::PageDown)
    }     else if lower == "up"@ {
        Some(KeyCode::Up)
    }     else if lower == "↑"@ {
        Some(KeyCode::Up)
    }     else if lower == "down"@ {
        Some(KeyCode::Down)
    }     else if lower == "↓"@ {
        Some(KeyCode::Down)
    }     else if lower == "left"@ {
        Some(KeyCode::Left)
    }     else if lower == "←"@ {
        Some(KeyCode::Left)
    }     else if lower == "right"@ {
        Some(KeyCode::Right)
    }     else if lower == "→"@ {
        Some(KeyCode::Right)
    }     else if lower == "space"@ {
        Some(KeyCode::Char(' '))
    } else {
        None
    }
}

/// The value of a decimal digit.
pub open spec fn digit_value(c: char) -> Option<nat> {
    if '0' <= c <= '9' {
        Some((c as u32 - '0' as u32) as nat)
    } else {
        None
    }
}

/// The number that the digits `s` write, where all of them are digits.
pub open spec fn digits_value(s: Seq<char>) -> Option<nat>
    decreases s.len(),
{
    if s.len() == 0 {
        Some(0)
    } else {
        match digits_value(s.drop_last()) {
            Some(v) => match digit_value(s.last()) {
                Some(d) => Some(v * 10 + d),
                None => None,
            },
            None => None,
        }
    }
}

/// The number up to 255 that a text writes in decimal digits, with or
/// without a plus sign before them.
pub open spec fn small_number(s: Seq<char>) -> Option<u8> {
    let digits = if s.len() > 0 && s[0] == '+' {
        s.skip(1)
    } else {
        s
    };
    small_value(digits)
}

/// The number up to 255 that the digits `digits` write.
pub open spec fn small_value(digits: Seq<char>) -> Option<u8> {
    if digits.len() == 0 {
        None
    } else {
        match digits_value(digits) {
            Some(v) => if v <= 255 {
                Some(v as u8)
            } else {
                None
            },
            None => None,
        }
    }
}

/// Where the digits so far write more than 255, so do all that follow.
pub proof fn lemma_digits_grow(s: Seq<char>, i: int)
    requires
        0 <= i <= s.len(),
    ensures
        digits_value(s.take(i)) is None ==> digits_value(s) is None,
        digits_value(s.take(i)) matches Some(v) ==> (digits_value(s) matches Some(w) ==> v <= w),
    decreases s.len() - i,
{
    if i < s.len() {
        lemma_digits_grow(s, i + 1);
        assert(s.take(i + 1).drop_last() =~= s.take(i));
    } else {
        assert(s.take(i) =~= s);
    }
}

/// The number up to 255 that `chars[from..]` writes.
pub fn parse_small_number(chars: &Vec<char>, from: usize) -> (r: Option<u8>)
    requires
        from <= chars.len(),
    ensures
        r == small_number(chars@.skip(from as int)),
{
    let ghost s = chars@.skip(from as int);
    let mut start = from;
    if start < chars.len() && chars[start] == '+' {
        start += 1;
    }
    let ghost digits = chars@.skip(start as int);
    proof {
        if start > from {
            assert(s.skip(1) =~= digits);
        }
        assert(small_number(s) == small_value(digits));
    }
    if start >= chars.len() {
        return None;
    }
    let mut value: u32 = 0;
    let mut i: usize = start;
    proof {
        assert(digits.take(0) =~= Seq::<char>::empty());
    }
    while i < chars.len()
        invariant
            start <= i <= chars.len(),
            digits == chars@.skip(start as int),
            digits.len() > 0,
            small_number(chars@.skip(from as int)) == small_value(digits),
            digits_value(digits.take(i - start)) == Some(value as nat),
            value <= 255,
        decreases chars.len() - i,
    {
        let c = chars[i];
        proof {
            assert(digits.take(i - start + 1).drop_last() =~= digits.take(i - start));
            assert(digits.take(i - start + 1).last() == c);
            lemma_digits_grow(digits, i - start + 1);
        }
        if !(c >= '0' && c <= '9') {
            return None;
        }
        let d = c as u32 - '0' as u32;
        value = value * 10 + d;
        if value > 255 {
            return None;
        }
        i += 1;
    }
    proof {
        assert(digits.take(digits.len() as int) =~= digits);
    }
    Some(value as u8)
}

/// The key that the name `lower`, in lower case, stands for: a named key, a
/// function key from `f1` to `f12`, or a single character.
pub open spec fn key_code_of(lower: Seq<char>) -> Result<KeyCode, KeyFault> {
    match named_key(lower) {
        Some(code) => Ok(code),
        None => if lower.len() > 1 && lower[0] == 'f' {
            match small_number(lower.skip(1)) {
                Some(n) => if 1 <= n <= 12 {
                    Ok(KeyCode::F(n))
                } else {
                    Err(KeyFault::FunctionKeyOutOfRange { number: n })
                },
                None => Err(KeyFault::InvalidFunctionKey { key: lower }),
            }
        } else if lower.len() == 1 {
            Ok(KeyCode::Char(lower[0]))
        } else {
            Err(KeyFault::UnknownKey { key: lower })
        },
    }
}

/// The named key that `lower` stands for.
pub fn named_key_of(lower: &str) -> (r: Option<KeyCode>)
    ensures
        r == named_key(lower@),
{
    if str_eq(lower, "enter") {
        Some(KeyCode::Enter)
    }     else if str_eq(lower, "return") {
        Some(KeyCode::Enter)
    }     else if str_eq(lower, "esc") {
        Some(KeyCode::Esc)
    }     else if str_eq(lower, "escape") {
        Some(KeyCode::Esc)
    }     else if str_eq(lower, "tab") {
        Some(KeyCode::Tab)
    }     else if str_eq(lower, "backspace") {
        Some(KeyCode::Backspace)
    }     else if str_eq(lower, "bs") {
        Some(KeyCode::Backspace)
    }     else if str_eq(lower, "delete") {
        Some(KeyCode::Delete)
    }     else if str_eq(lower, "del") {
        Some(KeyCode::Delete)
    }     else if str_eq(lower, "insert") {
        Some(KeyCode::Insert)
    }     else if str_eq(lower, "ins") {
        Some(KeyCode::Insert)
    }     else if str_eq(lower, "home") {
        Some(KeyCode::Home)
    }     else if str_eq(lower, "end") {
        Some(KeyCode::End)
    }     else if str_eq(lower, "pageup") {
        Some(KeyCode::PageUp)
    }     else if str_eq(lower, "pgup") {
        Some(KeyCode::PageUp)
    }     else if str_eq(lower, "pagedown") {
        Some(KeyCode::PageDown)
    }     else if str_eq(lower, "pgdn") {
        Some(KeyCode::PageDown)
    }     else if str_eq(lower, "up") {
        Some(KeyCode::Up)
    }     else if str_eq(lower, "↑") {
        Some(KeyCode::Up)
    }     else if str_eq(lower, "down") {
        Some(KeyCode::Down)
    }     else if str_eq(lower, "↓") {
        Some(KeyCode::Down)
    }     else if str_eq(lower, "left") {
        Some(KeyCode::Left)
    }     else if str_eq(lower, "←") {
        Some(KeyCode::Left)
    }     else if str_eq(lower, "right") {
        Some(KeyCode::Right)
    }     else if str_eq(lower, "→") {
        Some(KeyCode::Right)
    }     else if str_eq(lower, "space") {
        Some(KeyCode::Char(' '))
    } else {
        None
    }
}

/// The key that the name `lower`, in lower case, stands for.
pub fn key_code_from_lower(lower: &str) -> (r: Result<KeyCode, KeyError>)
    ensures
        match r {
            Ok(code) => key_code_of(lower@) == Ok::<KeyCode, KeyFault>(code),
            Err(e) => key_code_of(lower@) == Err::<KeyCode, KeyFault>(e@),
        },
{
    match named_key_of(lower) {
        Some(code) => {
            return Ok(code);
        },
        None => {},
    }
    let chars = to_chars(lower);
    if chars.len() > 1 && chars[0] == 'f' {
        match parse_small_number(&chars, 1) {
            Some(n) => {
                if 1 <= n && n <= 12 {
                    Ok(KeyCode::F(n))
                } else {
                    Err(KeyError::FunctionKeyOutOfRange { number: n })
                }
            },
            None => Err(KeyError::InvalidFunctionKey { key: lower.to_owned() }),
        }
    } else if chars.len() == 1 {
        Ok(KeyCode::Char(chars[0]))
    } else {
        Err(KeyError::UnknownKey { key: lower.to_owned() })
    }
}

/// The key that the name `s` stands for, whatever the case of its letters.
pub fn parse_key_code(s: &str) -> (r: Result<KeyCode, KeyError>)
    ensures
        match r {
            Ok(code) => key_code_of(lowercase(s@)) == Ok::<KeyCode, KeyFault>(code),
            Err(e) => key_code_of(lowercase(s@)) == Err::<KeyCode, KeyFault>(e@),
        },
{
    let lower = to_lowercase(s);
    key_code_from_lower(lower.as_str())
}

/// The parts of a text between its plus signs.
pub open spec fn plus_parts(s: Seq<char>) -> Seq<Seq<char>>
    decreases s.len(),
{
    if s.len() == 0 {
        seq![Seq::empty()]
    } else if s.last() == '+' {
        plus_parts(s.drop_last()).push(Seq::empty())
    } else {
        let before = plus_parts(s.drop_last());
        before.drop_last().push(before.last().push(s.last()))
    }
}

/// The modifiers with the one that `lower` names, where it names one.
pub open spec fn with_modifier(mods: KeyModifiers, lower: Seq<char>) -> Option<KeyModifiers> {
    if lower == "ctrl"@ {
        Some(KeyModifiers { control: true, ..mods })
    } else if lower == "shift"@ {
        Some(KeyModifiers { shift: true, ..mods })
    } else if lower == "alt"@ {
        Some(KeyModifiers { alt: true, ..mods })
    } else {
        None
    }
}

/// The key that the parts from `i` on write, after the modifiers `mods`:
/// every part but the last names a modifier, and the last names the key.
/// White space round a part does not count, nor the case of its letters.
pub open spec fn key_of_parts(
    parts: Seq<Seq<char>>,
    i: int,
    mods: KeyModifiers,
    input: Seq<char>,
) -> Result<KeyEvent, KeyFault>
    decreases parts.len() - i,
{
    if i < 0 || i >= parts.len() {
        Err(KeyFault::NoKeyCode { key: input })
    } else {
        let part = trimmed(parts[i]);
        match with_modifier(mods, lowercase(part)) {
            Some(m) => key_of_parts(parts, i + 1, m, input),
            None => if i == parts.len() - 1 {
                match key_code_of(lowercase(part)) {
                    Ok(code) => Ok(KeyEvent { code: code, modifiers: mods }),
                    Err(e) => Err(e),
                }
            } else {
                Err(KeyFault::UnknownModifier { modifier: part, key: input })
            },
        }
    }
}

/// The key that `input` writes, such as `Ctrl+Shift+k`.
pub open spec fn key_written(input: Seq<char>) -> Result<KeyEvent, KeyFault> {
    key_of_parts(plus_parts(input), 0, mods_none(), input)
}

/// The parts of `chars` between its plus signs.
pub fn split_plus(chars: &Vec<char>) -> (parts: Vec<Vec<char>>)
    ensures
        parts.len() >= 1,
        Seq::new(parts@.len(), |i: int| parts@[i]@) == plus_parts(chars@),
{
    let mut parts: Vec<Vec<char>> = Vec::new();
    let mut current: Vec<char> = Vec::new();
    let mut i: usize = 0;
    proof {
        assert(chars@.take(0) =~= Seq::<char>::empty());
        assert(Seq::new(parts@.len(), |i: int| parts@[i]@).push(current@) =~= plus_parts(
            chars@.take(0),
        ));
    }
    while i < chars.len()
        invariant
            i <= chars.len(),
            Seq::new(parts@.len(), |i: int| parts@[i]@).push(current@) == plus_parts(
                chars@.take(i as int),
            ),
        decreases chars.len() - i,
    {
        let ghost done = Seq::new(parts@.len(), |i: int| parts@[i]@);
        let ghost cur = current@;
        proof {
            assert(chars@.take(i + 1).drop_last() =~= chars@.take(i as int));
            assert(chars@.take(i + 1).last() == chars@[i as int]);
            assert(done.push(cur).drop_last() =~= done);
        }
        if chars[i] == '+' {
            let mut finished: Vec<char> = Vec::new();
            std::mem::swap(&mut current, &mut finished);
            parts.push(finished);
            proof {
                assert(Seq::new(parts@.len(), |i: int| parts@[i]@) =~= done.push(cur));
            }
        } else {
            current.push(chars[i]);
        }
        i += 1;
    }
    let ghost done = Seq::new(parts@.len(), |i: int| parts@[i]@);
    parts.push(current);
    proof {
        assert(chars@.take(chars@.len() as int) =~= chars@);
        assert(Seq::new(parts@.len(), |i: int| parts@[i]@) =~= done.push(current@));
    }
    parts
}

/// The modifier that `lower` names, added to `mods`.
pub fn add_modifier(mods: KeyModifiers, lower: &str) -> (r: Option<KeyModifiers>)
    ensures
        r == with_modifier(mods, lower@),
{
    if str_eq(lower, "ctrl") {
        Some(KeyModifiers { control: true, ..mods })
    } else if str_eq(lower, "shift") {
        Some(KeyModifiers { shift: true, ..mods })
    } else if str_eq(lower, "alt") {
        Some(KeyModifiers { alt: true, ..mods })
    } else {
        None
    }
}

/// The key that `input` writes, such as `Ctrl+Shift+k`: modifiers and a
/// key, with plus signs between them.
pub fn parse_key(input: &str) -> (r: Result<KeyEvent, KeyError>)
    ensures
        match r {
            Ok(k) => key_written(input@) == Ok::<KeyEvent, KeyFault>(k),
            Err(e) => key_written(input@) == Err::<KeyEvent, KeyFault>(e@),
        },
{
    let chars = to_chars(input);
    let parts = split_plus(&chars);
    let ghost all = plus_parts(input@);
    let mut modifiers = KeyModifiers::none();
    let mut i: usize = 0;
    while i < parts.len()
        invariant
            i <= parts.len(),
            parts.len() >= 1,
            all == plus_parts(input@),
            all == Seq::new(parts@.len(), |i: int| parts@[i]@),
            key_written(input@) == key_of_parts(all, i as int, modifiers, input@),
        decreases parts.len() - i,
    {
        proof {
            assert(all[i as int] == parts@[i as int]@);
        }
        let (a, b) = trim_range(&parts[i], 0, parts[i].len());
        proof {
            assert(parts@[i as int]@.subrange(0, parts@[i as int]@.len() as int)
                =~= parts@[i as int]@);
        }
        let normalized = from_chars(&parts[i], a, b);
        let lower = to_lowercase(normalized.as_str());
        match add_modifier(modifiers, lower.as_str()) {
            Some(m) => {
                modifiers = m;
            },
            None => {
                if i == parts.len() - 1 {
                    return match key_code_from_lower(lower.as_str()) {
                        Ok(code) => Ok(KeyEvent::new(code, modifiers)),
                        Err(e) => Err(e),
                    };
                } else {
                    return Err(
                        KeyError::UnknownModifier { modifier: normalized, key: input.to_owned() },
                    );
                }
            },
        }
        i += 1;
    }
    Err(KeyError::NoKeyCode { key: input.to_owned() })
}

/// The bindings after the settings of `overrides` from place `i` on have
/// been taken: each names an action and the key that is to be its only key.
pub open spec fn with_overrides(
    b: Seq<(KeyEvent, Action)>,
    overrides: Seq<(Seq<char>, Seq<char>)>,
    i: int,
) -> Result<Seq<(KeyEvent, Action)>, KeyFault>
    decreases overrides.len() - i,
{
    if i < 0 || i >= overrides.len() {
        Ok(b)
    } else {
        match action_named(lowercase(overrides[i].0)) {
            None => Err(KeyFault::UnknownAction { name: overrides[i].0 }),
            Some(action) => match key_written(overrides[i].1) {
                Err(e) => Err(e),
                Ok(key) => with_overrides(bind(unbind(b, action), key, action), overrides, i + 1),
            },
        }
    }
}

/// The bindings of the preset `name` with the settings of `overrides`.
pub open spec fn bindings_for(name: Seq<char>, overrides: Seq<(Seq<char>, Seq<char>)>) -> Result<
    Seq<(KeyEvent, Action)>,
    KeyFault,
> {
    match preset_named(lowercase(name)) {
        None => Err(KeyFault::UnknownPreset { name: name }),
        Some(b) => with_overrides(b, overrides, 0),
    }
}

impl KeybindingMap {
    /// The bindings of the preset `name`, with the settings of `overrides`:
    /// each names an action and the key that is to be its only key.
    pub fn from_preset(name: &str, overrides: &StringMap<String>) -> (r: Result<Self, KeyError>)
        ensures
            match r {
                Ok(m) => bindings_for(name@, overrides@) == Ok::<Seq<(KeyEvent, Action)>, KeyFault>(
                    m@,
                ),
                Err(e) => bindings_for(name@, overrides@) == Err::<
                    Seq<(KeyEvent, Action)>,
                    KeyFault,
                >(e@),
            },
    {
        let mut map = match get_preset(name) {
            Some(m) => m,
            None => {
                return Err(KeyError::UnknownPreset { name: name.to_owned() });
            },
        };
        let ghost start = map@;
        let mut i: usize = 0;
        while i < overrides.entries.len()
            invariant
                i <= overrides.entries.len(),
                overrides@.len() == overrides.entries.len(),
                bindings_for(name@, overrides@) == with_overrides(start, overrides@, 0),
                with_overrides(start, overrides@, 0) == with_overrides(map@, overrides@, i as int),
            decreases overrides.entries.len() - i,
        {
            proof {
                assert(overrides@[i as int] == (
                    overrides.entries@[i as int].0@,
                    overrides.entries@[i as int].1@,
                ));
            }
            let action = match Action::from_str(overrides.entries[i].0.as_str()) {
                Some(a) => a,
                None => {
                    return Err(KeyError::UnknownAction { name: overrides.entries[i].0.clone() });
                },
            };
            let key = match parse_key(overrides.entries[i].1.as_str()) {
                Ok(k) => k,
                Err(e) => {
                    return Err(e);
                },
            };
            map.remove_action(action);
            map.insert(key, action);
            i += 1;
        }
        Ok(map)
    }
}

} // verus!

use crate::text::{lowercase, str_eq, to_lowercase};
use vstd::prelude::*;

verus! {

/// What a key press asks of the outline.
#[derive(Debug, Clone, Copy, PartialEq, Eq, Hash, Structural)]
pub enum Action {
    MoveUp,
    MoveDown,
    Collapse,
    Expand,
    Enter,
    Exit,
    Search,
    Quit,
    ToggleSidebar,
    Help,
    GoDaily,
    NextDay,
    PrevDay,
    QuickSwitcher,
    Indent,
    Unindent,
    EditBlock,
    CreateBlock,
    Undo,
    Redo,
    CursorLeft,
    CursorRight,
    NavBack,
    NavForward,
}

/// The action that the name `name` stands for in a configuration.
pub open spec fn action_named(name: Seq<char>) -> Option<Action> {
    if name == "move_up"@ {
        Some(Action::MoveUp)
    }     else if name == "move_down"@ {
        Some(Action::MoveDown)
    }     else if name == "collapse"@ {
        Some(Action::Collapse)
    }     else if name == "expand"@ {
        Some(Action::Expand)
    }     else if name == "enter"@ {
        Some(Action::Enter)
    }     else if name == "exit"@ {
        Some(Action::Exit)
    }     else if name == "search"@ {
        Some(Action::Search)
    }     else if name == "quit"@ {
        Some(Action::Quit)
    }     else if name == "toggle_sidebar"@ {
        Some(Action::ToggleSidebar)
    }     else if name == "help"@ {
        Some(Action::Help)
    }     else if name == "go_daily"@ {
        Some(Action::GoDaily)
    }     else if name == "next_day"@ {
        Some(Action::NextDay)
    }     else if name == "prev_day"@ {
        Some(Action::PrevDay)
    }     else if name == "quick_switcher"@ {
        Some(Action::QuickSwitcher)
    }     else if name == "indent"@ {
        Some(Action::Indent)
    }     else if name == "unindent"@ {
        Some(Action::Unindent)
    }     else if name == "edit_block"@ {
        Some(Action::EditBlock)
    }     else if name == "create_block"@ {
        Some(Action::CreateBlock)
    }     else if name == "undo"@ {
        Some(Action::Undo)
    }     else if name == "redo"@ {
        Some(Action::Redo)
    }     else if name == "cursor_left"@ {
        Some(Action::CursorLeft)
    }     else if name == "cursor_right"@ {
        Some(Action::CursorRight)
    }     else if name == "nav_back"@ {
        Some(Action::NavBack)
    }     else if name == "nav_forward"@ {
        Some(Action::NavForward)
    } else {
        None
    }
}

/// The word that stands for an action in the hints.
pub open spec fn hint_of(action: Action) -> Seq<char> {
    match action {
        Action::MoveUp => "up"@,
        Action::MoveDown => "down"@,
        Action::Collapse => "collapse"@,
        Action::Expand => "expand"@,
        Action::Enter => "enter"@,
        Action::Exit => "exit"@,
        Action::Search => "search"@,
        Action::Quit => "quit"@,
        Action::ToggleSidebar => "sidebar"@,
        Action::Help => "help"@,
        Action::GoDaily => "daily"@,
        Action::NextDay => "next day"@,
        Action::PrevDay => "prev day"@,
        Action::QuickSwitcher => "switcher"@,
        Action::Indent => "indent"@,
        Action::Unindent => "unindent"@,
        Action::EditBlock => "edit"@,
        Action::CreateBlock => "new block"@,
        Action::Undo => "undo"@,
        Action::Redo => "redo"@,
        Action::CursorLeft => "cursor ←"@,
        Action::CursorRight => "cursor →"@,
        Action::NavBack => "back"@,
        Action::NavForward => "forward"@,
    }
}

impl Action {
    /// The action that `s` names, whatever the case of its letters.
    pub fn from_str(s: &str) -> (r: Option<Self>)
        ensures
            r == action_named(lowercase(s@)),
    {
        let lower = to_lowercase(s);
        Self::from_name(lower.as_str())
    }

    /// The action that the name `name` stands for.
    pub fn from_name(name: &str) -> (r: Option<Self>)
        ensures
            r == action_named(name@),
    {
        if str_eq(name, "move_up") {
            Some(Action::MoveUp)
        }         else if str_eq(name, "move_down") {
            Some(Action::MoveDown)
        }         else if str_eq(name, "collapse") {
            Some(Action::Collapse)
        }         else if str_eq(name, "expand") {
            Some(Action::Expand)
        }         else if str_eq(name, "enter") {
            Some(Action::Enter)
        }         else if str_eq(name, "exit") {
            Some(Action::Exit)
        }         else if str_eq(name, "search") {
            Some(Action::Search)
        }         else if str_eq(name, "quit") {
            Some(Action::Quit)
        }         else if str_eq(name, "toggle_sidebar") {
            Some(Action::ToggleSidebar)
        }         else if str_eq(name, "help") {
            Some(Action::Help)
        }         else if str_eq(name, "go_daily") {
            Some(Action::GoDaily)
        }         else if str_eq(name, "next_day") {
            Some(Action::NextDay)
        }         else if str_eq(name, "prev_day") {
            Some(Action::PrevDay)
        }         else if str_eq(name, "quick_switcher") {
            Some(Action::QuickSwitcher)
        }         else if str_eq(name, "indent") {
            Some(Action::Indent)
        }         else if str_eq(name, "unindent") {
            Some(Action::Unindent)
        }         else if str_eq(name, "edit_block") {
            Some(Action::EditBlock)
        }         else if str_eq(name, "create_block") {
            Some(Action::CreateBlock)
        }         else if str_eq(name, "undo") {
            Some(Action::Undo)
        }         else if str_eq(name, "redo") {
            Some(Action::Redo)
        }         else if str_eq(name, "cursor_left") {
            Some(Action::CursorLeft)
        }         else if str_eq(name, "cursor_right") {
            Some(Action::CursorRight)
        }         else if str_eq(name, "nav_back") {
            Some(Action::NavBack)
        }         else if str_eq(name, "nav_forward") {
            Some(Action::NavForward)
        } else {
            None
        }
    }

    /// The word that stands for the action in the hints.
    pub fn hint_text(&self) -> (r: &'static str)
        ensures
            r@ == hint_of(*self),
    {
        match self {
            Action::MoveUp => "up",
            Action::MoveDown => "down",
            Action::Collapse => "collapse",
            Action::Expand => "expand",
            Action::Enter => "enter",
            Action::Exit => "exit",
            Action::Search => "search",
            Action::Quit => "quit",
            Action::ToggleSidebar => "sidebar",
            Action::Help => "help",
            Action::GoDaily => "daily",
            Action::NextDay => "next day",
            Action::PrevDay => "prev day",
            Action::QuickSwitcher => "switcher",
            Action::Indent => "indent",
            Action::Unindent => "unindent",
            Action::EditBlock => "edit",
            Action::CreateBlock => "new block",
            Action::Undo => "undo",
            Action::Redo => "redo",
            Action::CursorLeft => "cursor ←",
            Action::CursorRight => "cursor →",
            Action::NavBack => "back",
            Action::NavForward => "forward",
        }
    }
}

} // verus!

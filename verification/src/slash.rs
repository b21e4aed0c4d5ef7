use crate::date::{daily_title, format_roam_daily_title, some_day, spare_day, Date};
use crate::edit_buffer::{
    chars_start_with, done_prefix, starts_with, todo_prefix, BufferView, EditBuffer,
};
use crate::text::{
    clock_at, clock_secs, day_at, is_whitespace, is_whitespace_char, lowercase, occurs_in,
    push_str, str_contains, to_chars, to_lowercase, today,
};
use vstd::prelude::*;

verus! {

/// The choice of a command while its name is being typed after a slash.
#[derive(Debug, PartialEq)]
pub struct SlashMenuState {
    pub query: String,
    pub commands: Vec<SlashCommand>,
    pub selected: usize,
    /// Place of the slash in the buffer.
    pub slash_pos: usize,
}

/// What a [`SlashMenuState`] is, as a mathematical value.
pub struct SlashMenuView {
    pub query: Seq<char>,
    pub commands: Seq<SlashCommand>,
    pub selected: nat,
    pub slash_pos: nat,
}

impl View for SlashMenuState {
    type V = SlashMenuView;

    open spec fn view(&self) -> SlashMenuView {
        SlashMenuView {
            query: self.query@,
            commands: self.commands@,
            selected: self.selected as nat,
            slash_pos: self.slash_pos as nat,
        }
    }
}

/// A command that can be chosen after a slash.
#[derive(Debug, Clone, Copy, PartialEq)]
pub struct SlashCommand {
    pub name: &'static str,
    pub description: &'static str,
    pub action: SlashAction,
}

/// What a command does to the text.
#[derive(Debug, Clone, Copy, PartialEq)]
pub enum SlashAction {
    PrependText(&'static str),
    InsertText(&'static str),
    InsertPair { open: &'static str, close: &'static str },
    InsertDate(DateOffset),
    InsertTime,
    InsertCodeBlock,
}

/// A day, told from today.
#[derive(Debug, Clone, Copy, PartialEq, Eq, Structural)]
pub enum DateOffset {
    Today,
    Yesterday,
    Tomorrow,
}

/// All commands, in the order in which they are offered.
pub open spec fn command_list() -> Seq<SlashCommand> {
    seq![
        (SlashCommand { name: "todo", description: "Add TODO checkbox", action: SlashAction::PrependText("{{[[TODO]]}} ") }),
        (SlashCommand { name: "done", description: "Add DONE checkbox", action: SlashAction::PrependText("{{[[DONE]]}} ") }),
        (SlashCommand { name: "date", description: "Insert today's date", action: SlashAction::InsertDate(DateOffset::Today) }),
        (SlashCommand { name: "yesterday", description: "Insert yesterday's date", action: SlashAction::InsertDate(DateOffset::Yesterday) }),
        (SlashCommand { name: "tomorrow", description: "Insert tomorrow's date", action: SlashAction::InsertDate(DateOffset::Tomorrow) }),
        (SlashCommand { name: "time", description: "Insert current time", action: SlashAction::InsertTime }),
        (SlashCommand { name: "code", description: "Insert code block", action: SlashAction::InsertCodeBlock }),
        (SlashCommand { name: "hr", description: "Horizontal rule", action: SlashAction::InsertText("---") }),
        (SlashCommand { name: "bold", description: "Bold text", action: SlashAction::InsertPair { open: "**", close: "**" } }),
        (SlashCommand { name: "italic", description: "Italic text", action: SlashAction::InsertPair { open: "__", close: "__" } }),
        (SlashCommand { name: "highlight", description: "Highlight text", action: SlashAction::InsertPair { open: "^^", close: "^^" } }),
        (SlashCommand { name: "strikethrough", description: "Strikethrough text", action: SlashAction::InsertPair { open: "~~", close: "~~" } }),
        (SlashCommand { name: "h1", description: "Heading 1", action: SlashAction::PrependText("# ") }),
        (SlashCommand { name: "h2", description: "Heading 2", action: SlashAction::PrependText("## ") }),
        (SlashCommand { name: "h3", description: "Heading 3", action: SlashAction::PrependText("### ") }),
        (SlashCommand { name: "blockquote", description: "Quote prefix", action: SlashAction::PrependText("> ") }),
        (SlashCommand { name: "embed", description: "Embed block or page", action: SlashAction::InsertPair { open: "{{[[embed]]: ", close: "}}" } }),
        (SlashCommand { name: "latex", description: "LaTeX formula", action: SlashAction::InsertPair { open: "$$", close: "$$" } }),
    ]
}

/// All commands, in the order in which they are offered.
pub fn all_commands() -> (v: Vec<SlashCommand>)
    ensures
        v@ == command_list(),
{
    let mut v: Vec<SlashCommand> = Vec::new();
    v.push(SlashCommand { name: "todo", description: "Add TODO checkbox", action: SlashAction::PrependText("{{[[TODO]]}} ") });
    v.push(SlashCommand { name: "done", description: "Add DONE checkbox", action: SlashAction::PrependText("{{[[DONE]]}} ") });
    v.push(SlashCommand { name: "date", description: "Insert today's date", action: SlashAction::InsertDate(DateOffset::Today) });
    v.push(SlashCommand { name: "yesterday", description: "Insert yesterday's date", action: SlashAction::InsertDate(DateOffset::Yesterday) });
    v.push(SlashCommand { name: "tomorrow", description: "Insert tomorrow's date", action: SlashAction::InsertDate(DateOffset::Tomorrow) });
    v.push(SlashCommand { name: "time", description: "Insert current time", action: SlashAction::InsertTime });
    v.push(SlashCommand { name: "code", description: "Insert code block", action: SlashAction::InsertCodeBlock });
    v.push(SlashCommand { name: "hr", description: "Horizontal rule", action: SlashAction::InsertText("---") });
    v.push(SlashCommand { name: "bold", description: "Bold text", action: SlashAction::InsertPair { open: "**", close: "**" } });
    v.push(SlashCommand { name: "italic", description: "Italic text", action: SlashAction::InsertPair { open: "__", close: "__" } });
    v.push(SlashCommand { name: "highlight", description: "Highlight text", action: SlashAction::InsertPair { open: "^^", close: "^^" } });
    v.push(SlashCommand { name: "strikethrough", description: "Strikethrough text", action: SlashAction::InsertPair { open: "~~", close: "~~" } });
    v.push(SlashCommand { name: "h1", description: "Heading 1", action: SlashAction::PrependText("# ") });
    v.push(SlashCommand { name: "h2", description: "Heading 2", action: SlashAction::PrependText("## ") });
    v.push(SlashCommand { name: "h3", description: "Heading 3", action: SlashAction::PrependText("### ") });
    v.push(SlashCommand { name: "blockquote", description: "Quote prefix", action: SlashAction::PrependText("> ") });
    v.push(SlashCommand { name: "embed", description: "Embed block or page", action: SlashAction::InsertPair { open: "{{[[embed]]: ", close: "}}" } });
    v.push(SlashCommand { name: "latex", description: "LaTeX formula", action: SlashAction::InsertPair { open: "$$", close: "$$" } });
    assert(v@ =~= command_list());
    v
}

/// The commands of `list` whose name holds `query`, in their order.
pub open spec fn kept(list: Seq<SlashCommand>, query: Seq<char>) -> Seq<SlashCommand>
    decreases list.len(),
{
    if list.len() == 0 {
        list
    } else if occurs_in(query, list.last().name@) {
        kept(list.drop_last(), query).push(list.last())
    } else {
        kept(list.drop_last(), query)
    }
}

/// The commands whose name holds `query_lower`, a query in lower case.
pub fn filter_lower(query_lower: &str) -> (v: Vec<SlashCommand>)
    ensures
        v@ == kept(command_list(), query_lower@),
{
    let all = all_commands();
    let mut v: Vec<SlashCommand> = Vec::new();
    let mut i: usize = 0;
    proof {
        assert(all@.take(0) =~= Seq::<SlashCommand>::empty());
    }
    while i < all.len()
        invariant
            i <= all.len(),
            v@ == kept(all@.take(i as int), query_lower@),
        decreases all.len() - i,
    {
        proof {
            assert(all@.take(i + 1).drop_last() =~= all@.take(i as int));
            assert(all@.take(i + 1).last() == all@[i as int]);
        }
        if str_contains(all[i].name, query_lower) {
            v.push(all[i]);
        }
        i += 1;
    }
    proof {
        assert(all@.take(all@.len() as int) =~= all@);
    }
    v
}

/// The commands whose name holds `query`, whatever the case of its letters.
pub fn filter(query: &str) -> (v: Vec<SlashCommand>)
    ensures
        v@ == kept(command_list(), lowercase(query@)),
{
    let q = to_lowercase(query);
    filter_lower(q.as_str())
}

/// The place of the slash that opens the choice of a command: the character
/// before the cursor, where it is a slash at the start of the text or after
/// white space.
pub open spec fn slash_at(b: BufferView) -> Option<nat> {
    if b.cursor == 0 || b.cursor > b.chars.len() {
        None
    } else if b.chars[b.cursor - 1] != '/' {
        None
    } else if b.cursor == 1 || is_whitespace_char(b.chars[b.cursor - 2]) {
        Some((b.cursor - 1) as nat)
    } else {
        None
    }
}

/// The place of the slash that opens the choice of a command, where the one
/// just typed does.
pub fn detect_trigger(buffer: &EditBuffer) -> (r: Option<usize>)
    requires
        buffer.wf(),
    ensures
        match r {
            Some(p) => slash_at(buffer@) == Some(p as nat),
            None => slash_at(buffer@) is None,
        },
{
    let c = buffer.cursor;
    if c == 0 {
        return None;
    }
    let slash_pos = c - 1;
    if buffer.chars[slash_pos] != '/' {
        return None;
    }
    if slash_pos == 0 || is_whitespace(buffer.chars[slash_pos - 1]) {
        Some(slash_pos)
    } else {
        None
    }
}

/// The day that `offset` tells from `today`; `today` itself where there is
/// no such day.
pub open spec fn offset_day(today: Date, offset: DateOffset) -> Date {
    match offset {
        DateOffset::Today => today,
        DateOffset::Yesterday => match today.day_before() {
            Some(d) => d,
            None => today,
        },
        DateOffset::Tomorrow => match today.day_after() {
            Some(d) => d,
            None => today,
        },
    }
}

/// The text without a task mark at its start.
pub open spec fn unmarked(b: BufferView) -> BufferView {
    if starts_with(b.chars, todo_prefix()) {
        BufferView {
            chars: b.chars.skip(todo_prefix().len() as int),
            cursor: if b.cursor >= todo_prefix().len() {
                (b.cursor - todo_prefix().len()) as nat
            } else {
                0
            },
        }
    } else if starts_with(b.chars, done_prefix()) {
        BufferView {
            chars: b.chars.skip(done_prefix().len() as int),
            cursor: if b.cursor >= done_prefix().len() {
                (b.cursor - done_prefix().len()) as nat
            } else {
                0
            },
        }
    } else {
        b
    }
}

/// The buffer after the command has been carried out on the day `today` at
/// the time `time`: the slash at `slash_pos` and the `query_len` characters
/// typed after it give way to what the command puts in.
pub open spec fn executed(
    b: BufferView,
    action: SlashAction,
    slash_pos: int,
    query_len: int,
    today: Date,
    time: Seq<char>,
) -> BufferView {
    let end = slash_pos + 1 + query_len;
    match action {
        SlashAction::PrependText(prefix) => {
            let bare = unmarked(b.replace_range(slash_pos, end, Seq::empty()));
            BufferView { chars: prefix@ + bare.chars, cursor: bare.cursor + prefix@.len() }
        },
        SlashAction::InsertText(text) => b.replace_range(slash_pos, end, text@),
        SlashAction::InsertPair { open, close } => BufferView {
            chars: b.replace_range(slash_pos, end, open@ + close@).chars,
            cursor: (slash_pos + open@.len()) as nat,
        },
        SlashAction::InsertDate(offset) => b.replace_range(
            slash_pos,
            end,
            "[["@ + daily_title(offset_day(today, offset)) + "]]"@,
        ),
        SlashAction::InsertTime => b.replace_range(slash_pos, end, time),
        SlashAction::InsertCodeBlock => BufferView {
            chars: b.replace_range(slash_pos, end, "```\n\n```"@).chars,
            cursor: (slash_pos + 4) as nat,
        },
    }
}

/// Takes a task mark off the start of the text.
pub fn strip_task_mark(buffer: &mut EditBuffer)
    requires
        old(buffer).wf(),
    ensures
        final(buffer)@ == unmarked(old(buffer)@),
        final(buffer).wf(),
{
    let todo = to_chars("{{[[TODO]]}} ");
    let done = to_chars("{{[[DONE]]}} ");
    proof {
        reveal_strlit("{{[[TODO]]}} ");
        reveal_strlit("{{[[DONE]]}} ");
        reveal_strlit("");
    }
    let cursor = buffer.cursor;
    if chars_start_with(&buffer.chars, &todo) {
        buffer.replace_range(0, todo.len(), "");
        assert(buffer.chars@ =~= old(buffer).chars@.skip(todo@.len() as int));
        buffer.cursor = if cursor >= todo.len() {
            cursor - todo.len()
        } else {
            0
        };
    } else if chars_start_with(&buffer.chars, &done) {
        buffer.replace_range(0, done.len(), "");
        assert(buffer.chars@ =~= old(buffer).chars@.skip(done@.len() as int));
        buffer.cursor = if cursor >= done.len() {
            cursor - done.len()
        } else {
            0
        };
    }
}

/// Carries out the command `action` on the day `today` at the time `time`.
pub fn execute_at(
    action: &SlashAction,
    buffer: &mut EditBuffer,
    slash_pos: usize,
    query_len: usize,
    today: Date,
    time: &str,
)
    requires
        slash_pos + 1 + query_len <= old(buffer).chars@.len(),
    ensures
        final(buffer)@ == executed(
            old(buffer)@,
            *action,
            slash_pos as int,
            query_len as int,
            today,
            time@,
        ),
        final(buffer).wf(),
{
    let len_before = buffer.chars.len();
    let replace_end = slash_pos + 1 + query_len;
    match action {
        SlashAction::PrependText(prefix) => {
            proof {
                reveal_strlit("");
                assert(""@ =~= Seq::<char>::empty());
            }
            buffer.replace_range(slash_pos, replace_end, "");
            strip_task_mark(buffer);
            let cursor = buffer.cursor;
            let ghost bare = buffer@;
            buffer.replace_range(0, 0, prefix);
            assert(buffer.chars@ =~= prefix@ + bare.chars);
            let len = buffer.chars.len();
            let prefix_len = prefix.unicode_len();
            assert(cursor + prefix_len <= len);
            buffer.cursor = cursor + prefix_len;
        },
        SlashAction::InsertText(text) => {
            buffer.replace_range(slash_pos, replace_end, text);
        },
        SlashAction::InsertPair { open, close } => {
            let mut replacement = (*open).to_owned();
            push_str(&mut replacement, close);
            buffer.replace_range(slash_pos, replace_end, replacement.as_str());
            let open_len = open.unicode_len();
            let len = buffer.chars.len();
            assert(slash_pos + open_len <= len);
            buffer.cursor = slash_pos + open_len;
        },
        SlashAction::InsertDate(offset) => {
            let date = match offset {
                DateOffset::Today => today,
                DateOffset::Yesterday => match today.previous_day() {
                    Some(d) => d,
                    None => today,
                },
                DateOffset::Tomorrow => match today.next_day() {
                    Some(d) => d,
                    None => today,
                },
            };
            let title = format_roam_daily_title(date);
            let mut link = "[[".to_owned();
            push_str(&mut link, title.as_str());
            push_str(&mut link, "]]");
            buffer.replace_range(slash_pos, replace_end, link.as_str());
        },
        SlashAction::InsertTime => {
            buffer.replace_range(slash_pos, replace_end, time);
        },
        SlashAction::InsertCodeBlock => {
            proof {
                reveal_strlit("```\n\n```");
            }
            buffer.replace_range(slash_pos, replace_end, "```\n\n```");
            let len = buffer.chars.len();
            assert(slash_pos + 4 <= len);
            buffer.cursor = slash_pos + 4;
        },
    }
}

/// Whether the command `action` puts in a day or the time of day.
pub open spec fn uses_clock(action: SlashAction) -> bool {
    action is InsertDate || action is InsertTime
}

/// Whether the command `action` puts in a day or the time of day.
pub fn needs_clock(action: &SlashAction) -> (r: bool)
    ensures
        r == uses_clock(*action),
{
    match action {
        SlashAction::InsertDate(_) => true,
        SlashAction::InsertTime => true,
        _ => false,
    }
}

/// Carries out the command `action`: the slash at `slash_pos` and the
/// `query_len` characters typed after it give way to what the command puts
/// in. A date or a time is that of the moment; the clock is read for these
/// commands only.
pub fn execute(action: &SlashAction, buffer: &mut EditBuffer, slash_pos: usize, query_len: usize)
    requires
        slash_pos + 1 + query_len <= old(buffer).chars@.len(),
    ensures
        !uses_clock(*action) ==> final(buffer)@ == executed(
            old(buffer)@,
            *action,
            slash_pos as int,
            query_len as int,
            some_day(),
            Seq::empty(),
        ),
        uses_clock(*action) ==> exists|day: Date, time: Seq<char>|
            day.is_valid() && final(buffer)@ == #[trigger] executed(
                old(buffer)@,
                *action,
                slash_pos as int,
                query_len as int,
                day,
                time,
            ),
        final(buffer).wf(),
{
    if needs_clock(action) {
        let secs = clock_secs();
        let day = day_at(secs);
        let time = clock_at(secs);
        execute_at(action, buffer, slash_pos, query_len, day, time.as_str());
    } else {
        proof {
            reveal_strlit("");
            assert(""@ =~= Seq::<char>::empty());
        }
        execute_at(action, buffer, slash_pos, query_len, spare_day(), "");
    }
}

} // verus!

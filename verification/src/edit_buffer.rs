use crate::text::{from_chars, is_whitespace, is_whitespace_char, to_chars};
use vstd::prelude::*;

verus! {

/// The text of one block while it is being edited, with the place of the
/// cursor: a number of characters from the start, at most the length.
#[derive(Debug, PartialEq)]
pub struct EditBuffer {
    pub chars: Vec<char>,
    pub cursor: usize,
}

/// What an [`EditBuffer`] is, as a mathematical value.
pub struct BufferView {
    pub chars: Seq<char>,
    pub cursor: nat,
}

impl View for EditBuffer {
    type V = BufferView;

    open spec fn view(&self) -> BufferView {
        BufferView { chars: self.chars@, cursor: self.cursor as nat }
    }
}

impl Clone for EditBuffer {
    fn clone(&self) -> (r: Self)
        ensures
            r@ == self@,
    {
        EditBuffer { chars: self.chars.clone(), cursor: self.cursor }
    }
}

/// The prefix that marks a block as a task to do.
pub open spec fn todo_prefix() -> Seq<char> {
    "{{[[TODO]]}} "@
}

/// The prefix that marks a block as a task done.
pub open spec fn done_prefix() -> Seq<char> {
    "{{[[DONE]]}} "@
}

/// Whether `s` begins with `prefix`.
pub open spec fn starts_with(s: Seq<char>, prefix: Seq<char>) -> bool {
    prefix.len() <= s.len() && s.take(prefix.len() as int) == prefix
}

/// Where a walk back from `pos` stops: at the start, or after the nearest
/// character before `pos` that is white space (where `over_space` is false)
/// or is none (where it is true).
pub open spec fn walk_back(s: Seq<char>, pos: int, over_space: bool) -> int
    decreases pos,
{
    if 0 < pos <= s.len() && is_whitespace_char(s[pos - 1]) == over_space {
        walk_back(s, pos - 1, over_space)
    } else {
        pos
    }
}

/// Where a walk on from `pos` stops: at the end, or at the nearest character
/// from `pos` on that is white space (where `over_space` is false) or is none
/// (where it is true).
pub open spec fn walk_on(s: Seq<char>, pos: int, over_space: bool) -> int
    decreases s.len() - pos,
{
    if 0 <= pos < s.len() && is_whitespace_char(s[pos]) == over_space {
        walk_on(s, pos + 1, over_space)
    } else {
        pos
    }
}

/// Start of the line that holds position `pos`: the place after the last line
/// break before `pos`, 0 where there is none.
pub open spec fn line_start(s: Seq<char>, pos: int) -> int
    decreases pos,
{
    if 0 < pos <= s.len() && s[pos - 1] != '\n' {
        line_start(s, pos - 1)
    } else {
        pos
    }
}

/// End of the line that holds position `pos`: the place of the first line
/// break from `pos` on, the length where there is none.
pub open spec fn line_end(s: Seq<char>, pos: int) -> int
    decreases s.len() - pos,
{
    if 0 <= pos < s.len() && s[pos] != '\n' {
        line_end(s, pos + 1)
    } else {
        pos
    }
}

pub open spec fn min_int(a: int, b: int) -> int {
    if a <= b {
        a
    } else {
        b
    }
}

/// Where the cursor goes when it moves up one line from `cursor`: to the same
/// column of the line before, or to the end of that line where it is shorter;
/// to the start of the text from the first line.
pub open spec fn cursor_up(s: Seq<char>, cursor: int) -> int {
    let start = line_start(s, cursor);
    if start == 0 {
        0
    } else {
        let prev_end = start - 1;
        let prev_start = line_start(s, prev_end);
        prev_start + min_int(cursor - start, prev_end - prev_start)
    }
}

/// Where the cursor goes when it moves down one line from `cursor`: to the
/// same column of the next line, or to the end of that line where it is
/// shorter; to the end of the text from the last line.
pub open spec fn cursor_down(s: Seq<char>, cursor: int) -> int {
    let start = line_start(s, cursor);
    let end = line_end(s, cursor);
    if end >= s.len() {
        s.len() as int
    } else {
        let next_start = end + 1;
        let next_end = line_end(s, next_start);
        next_start + min_int(cursor - start, next_end - next_start)
    }
}

/// The text after a change of its task mark: a done mark is taken off, a
/// to-do mark becomes a done mark, and a text with neither gets a to-do mark.
pub open spec fn toggled(s: Seq<char>) -> Seq<char> {
    if starts_with(s, done_prefix()) {
        s.skip(done_prefix().len() as int)
    } else if starts_with(s, todo_prefix()) {
        done_prefix() + s.skip(todo_prefix().len() as int)
    } else {
        todo_prefix() + s
    }
}

/// Where the cursor stands after [`toggled`].
pub open spec fn toggled_cursor(s: Seq<char>, cursor: int) -> int {
    if starts_with(s, done_prefix()) {
        if cursor >= done_prefix().len() {
            cursor - done_prefix().len()
        } else {
            0
        }
    } else if starts_with(s, todo_prefix()) {
        cursor
    } else {
        cursor + todo_prefix().len()
    }
}

pub proof fn lemma_walk_on_bounds(s: Seq<char>, pos: int, over_space: bool)
    requires
        0 <= pos <= s.len(),
    ensures
        pos <= walk_on(s, pos, over_space) <= s.len(),
    decreases s.len() - pos,
{
    if pos < s.len() && is_whitespace_char(s[pos]) == over_space {
        lemma_walk_on_bounds(s, pos + 1, over_space);
    }
}

/// Start of the line that holds position `pos` of `chars`.
pub fn find_line_start(chars: &Vec<char>, pos: usize) -> (r: usize)
    requires
        pos <= chars.len(),
    ensures
        r == line_start(chars@, pos as int),
        r <= pos,
{
    let mut p = pos;
    while p > 0 && chars[p - 1] != '\n'
        invariant
            p <= pos <= chars.len(),
            line_start(chars@, pos as int) == line_start(chars@, p as int),
        decreases p,
    {
        p -= 1;
    }
    p
}

/// End of the line that holds position `pos` of `chars`.
pub fn find_line_end(chars: &Vec<char>, pos: usize) -> (r: usize)
    requires
        pos <= chars.len(),
    ensures
        r == line_end(chars@, pos as int),
        pos <= r <= chars.len(),
{
    let mut p = pos;
    while p < chars.len() && chars[p] != '\n'
        invariant
            pos <= p <= chars.len(),
            line_end(chars@, pos as int) == line_end(chars@, p as int),
        decreases chars.len() - p,
    {
        p += 1;
    }
    p
}

/// Whether `chars` begin with the characters of `prefix`.
pub fn chars_start_with(chars: &Vec<char>, prefix: &Vec<char>) -> (r: bool)
    ensures
        r == starts_with(chars@, prefix@),
{
    if prefix.len() > chars.len() {
        return false;
    }
    let mut i: usize = 0;
    while i < prefix.len()
        invariant
            i <= prefix.len() <= chars.len(),
            forall|j: int| 0 <= j < i ==> chars@[j] == prefix@[j],
        decreases prefix.len() - i,
    {
        if chars[i] != prefix[i] {
            assert(chars@.take(prefix.len() as int)[i as int] != prefix@[i as int]);
            return false;
        }
        i += 1;
    }
    assert(chars@.take(prefix.len() as int) =~= prefix@);
    true
}

impl BufferView {
    /// Whether the cursor lies within the text or at its end.
    pub open spec fn wf(self) -> bool {
        self.cursor <= self.chars.len()
    }

    /// `ch` put at the cursor, and the cursor after it.
    pub open spec fn insert_char(self, ch: char) -> BufferView {
        BufferView { chars: self.chars.insert(self.cursor as int, ch), cursor: self.cursor + 1 }
    }

    /// `open` and `close` put at the cursor, and the cursor between them.
    pub open spec fn insert_pair(self, open: char, close: char) -> BufferView {
        BufferView {
            chars: self.chars.insert(self.cursor as int, open).insert(self.cursor as int + 1, close),
            cursor: self.cursor + 1,
        }
    }

    /// The character before the cursor taken out, if there is one.
    pub open spec fn delete_back(self) -> BufferView {
        if self.cursor > 0 {
            BufferView {
                chars: self.chars.remove(self.cursor - 1),
                cursor: (self.cursor - 1) as nat,
            }
        } else {
            self
        }
    }

    /// The character at the cursor taken out, if there is one.
    pub open spec fn delete_forward(self) -> BufferView {
        if self.cursor < self.chars.len() {
            BufferView { chars: self.chars.remove(self.cursor as int), ..self }
        } else {
            self
        }
    }

    pub open spec fn move_left(self) -> BufferView {
        if self.cursor > 0 {
            BufferView { cursor: (self.cursor - 1) as nat, ..self }
        } else {
            self
        }
    }

    pub open spec fn move_right(self) -> BufferView {
        if self.cursor < self.chars.len() {
            BufferView { cursor: self.cursor + 1, ..self }
        } else {
            self
        }
    }

    pub open spec fn move_home(self) -> BufferView {
        BufferView { cursor: 0, ..self }
    }

    pub open spec fn move_end(self) -> BufferView {
        BufferView { cursor: self.chars.len(), ..self }
    }

    /// The cursor moved back over white space and then over the word before
    /// it.
    pub open spec fn move_word_left(self) -> BufferView {
        BufferView {
            cursor: walk_back(self.chars, walk_back(self.chars, self.cursor as int, true), false) as nat,
            ..self
        }
    }

    /// The cursor moved on over the rest of the word and then over the white
    /// space after it.
    pub open spec fn move_word_right(self) -> BufferView {
        BufferView {
            cursor: walk_on(self.chars, walk_on(self.chars, self.cursor as int, false), true) as nat,
            ..self
        }
    }

    pub open spec fn move_up(self) -> BufferView {
        BufferView { cursor: cursor_up(self.chars, self.cursor as int) as nat, ..self }
    }

    pub open spec fn move_down(self) -> BufferView {
        BufferView { cursor: cursor_down(self.chars, self.cursor as int) as nat, ..self }
    }

    /// `replacement` put in place of the characters from `start` up to `end`,
    /// and the cursor after it.
    pub open spec fn replace_range(self, start: int, end: int, replacement: Seq<char>) -> BufferView {
        BufferView {
            chars: self.chars.take(start) + replacement + self.chars.skip(end),
            cursor: (start + replacement.len()) as nat,
        }
    }

    pub open spec fn toggle_todo(self) -> BufferView {
        BufferView {
            chars: toggled(self.chars),
            cursor: toggled_cursor(self.chars, self.cursor as int) as nat,
        }
    }
}

impl EditBuffer {
    /// Whether the cursor lies within the text or at its end.
    pub open spec fn wf(&self) -> bool {
        self@.wf()
    }

    /// A buffer that holds `text`, with the cursor at its end.
    pub fn new(text: &str) -> (b: Self)
        ensures
            b@ == (BufferView { chars: text@, cursor: text@.len() }),
    {
        let chars = to_chars(text);
        let cursor = chars.len();
        EditBuffer { chars, cursor }
    }

    /// A buffer that holds nothing.
    pub fn new_empty() -> (b: Self)
        ensures
            b@ == (BufferView { chars: Seq::empty(), cursor: 0 }),
    {
        EditBuffer { chars: Vec::new(), cursor: 0 }
    }

    /// Puts `ch` at the cursor and the cursor after it.
    pub fn insert_char(&mut self, ch: char)
        requires
            old(self).wf(),
        ensures
            final(self)@ == old(self)@.insert_char(ch),
            final(self).wf(),
    {
        self.chars.insert(self.cursor, ch);
        let len = self.chars.len();
        assert(self.cursor < len);
        self.cursor += 1;
    }

    /// Puts `open` and `close` at the cursor and the cursor between them.
    pub fn insert_pair(&mut self, open: char, close: char)
        requires
            old(self).wf(),
        ensures
            final(self)@ == old(self)@.insert_pair(open, close),
            final(self).wf(),
    {
        self.chars.insert(self.cursor, open);
        let len = self.chars.len();
        assert(self.cursor < len);
        self.chars.insert(self.cursor + 1, close);
        self.cursor += 1;
    }

    /// Takes out the character before the cursor, if there is one.
    pub fn delete_back(&mut self)
        requires
            old(self).wf(),
        ensures
            final(self)@ == old(self)@.delete_back(),
            final(self).wf(),
    {
        if self.cursor > 0 {
            self.cursor -= 1;
            self.chars.remove(self.cursor);
        }
    }

    /// Takes out the character at the cursor, if there is one.
    pub fn delete_forward(&mut self)
        ensures
            final(self)@ == old(self)@.delete_forward(),
            old(self).wf() ==> final(self).wf(),
    {
        if self.cursor < self.chars.len() {
            self.chars.remove(self.cursor);
        }
    }

    pub fn move_left(&mut self)
        ensures
            final(self)@ == old(self)@.move_left(),
            old(self).wf() ==> final(self).wf(),
    {
        if self.cursor > 0 {
            self.cursor -= 1;
        }
    }

    pub fn move_right(&mut self)
        ensures
            final(self)@ == old(self)@.move_right(),
            old(self).wf() ==> final(self).wf(),
    {
        if self.cursor < self.chars.len() {
            self.cursor += 1;
        }
    }

    pub fn move_home(&mut self)
        ensures
            final(self)@ == old(self)@.move_home(),
            final(self).wf(),
    {
        self.cursor = 0;
    }

    pub fn move_end(&mut self)
        ensures
            final(self)@ == old(self)@.move_end(),
            final(self).wf(),
    {
        self.cursor = self.chars.len();
    }

    /// Moves the cursor back over white space and then over the word before
    /// it.
    pub fn move_word_left(&mut self)
        requires
            old(self).wf(),
        ensures
            final(self)@ == old(self)@.move_word_left(),
            final(self).wf(),
    {
        while self.cursor > 0 && is_whitespace(self.chars[self.cursor - 1])
            invariant
                self.chars == old(self).chars,
                self.cursor <= old(self).cursor <= self.chars@.len(),
                walk_back(self.chars@, old(self).cursor as int, true) == walk_back(
                    self.chars@,
                    self.cursor as int,
                    true,
                ),
            decreases self.cursor,
        {
            self.cursor -= 1;
        }
        let ghost mid = self.cursor;
        while self.cursor > 0 && !is_whitespace(self.chars[self.cursor - 1])
            invariant
                self.chars == old(self).chars,
                self.cursor <= mid <= self.chars@.len(),
                walk_back(self.chars@, mid as int, false) == walk_back(
                    self.chars@,
                    self.cursor as int,
                    false,
                ),
            decreases self.cursor,
        {
            self.cursor -= 1;
        }
    }

    /// Moves the cursor on over the rest of the word and then over the white
    /// space after it.
    pub fn move_word_right(&mut self)
        requires
            old(self).wf(),
        ensures
            final(self)@ == old(self)@.move_word_right(),
            final(self).wf(),
    {
        let len = self.chars.len();
        while self.cursor < len && !is_whitespace(self.chars[self.cursor])
            invariant
                self.chars == old(self).chars,
                len == self.chars@.len(),
                old(self).cursor <= self.cursor <= len,
                walk_on(self.chars@, old(self).cursor as int, false) == walk_on(
                    self.chars@,
                    self.cursor as int,
                    false,
                ),
            decreases len - self.cursor,
        {
            self.cursor += 1;
        }
        let ghost mid = self.cursor;
        while self.cursor < len && is_whitespace(self.chars[self.cursor])
            invariant
                self.chars == old(self).chars,
                len == self.chars@.len(),
                mid <= self.cursor <= len,
                walk_on(self.chars@, mid as int, true) == walk_on(
                    self.chars@,
                    self.cursor as int,
                    true,
                ),
            decreases len - self.cursor,
        {
            self.cursor += 1;
        }
    }

    /// Moves the cursor up one line, keeping its column where the line above
    /// is long enough.
    pub fn move_up(&mut self)
        requires
            old(self).wf(),
        ensures
            final(self)@ == old(self)@.move_up(),
            final(self).wf(),
    {
        let current_line_start = find_line_start(&self.chars, self.cursor);
        if current_line_start == 0 {
            self.cursor = 0;
            return;
        }
        let col = self.cursor - current_line_start;
        let prev_line_end = current_line_start - 1;
        let prev_line_start = find_line_start(&self.chars, prev_line_end);
        let prev_line_len = prev_line_end - prev_line_start;
        self.cursor = prev_line_start + (if col < prev_line_len {
            col
        } else {
            prev_line_len
        });
    }

    /// Moves the cursor down one line, keeping its column where the line below
    /// is long enough.
    pub fn move_down(&mut self)
        requires
            old(self).wf(),
        ensures
            final(self)@ == old(self)@.move_down(),
            final(self).wf(),
    {
        let current_line_start = find_line_start(&self.chars, self.cursor);
        let current_line_end = find_line_end(&self.chars, self.cursor);
        if current_line_end >= self.chars.len() {
            self.cursor = self.chars.len();
            return;
        }
        let col = self.cursor - current_line_start;
        let next_line_start = current_line_end + 1;
        let next_line_end = find_line_end(&self.chars, next_line_start);
        let next_line_len = next_line_end - next_line_start;
        self.cursor = next_line_start + (if col < next_line_len {
            col
        } else {
            next_line_len
        });
    }

    /// The text that the buffer holds.
    pub fn to_string(&self) -> (s: String)
        ensures
            s@ == self@.chars,
    {
        let s = from_chars(&self.chars, 0, self.chars.len());
        assert(self.chars@.subrange(0, self.chars@.len() as int) =~= self.chars@);
        s
    }

    /// Puts `replacement` in place of the characters from `start` up to `end`,
    /// and the cursor after it.
    pub fn replace_range(&mut self, start: usize, end: usize, replacement: &str)
        requires
            start <= end <= old(self).chars@.len(),
        ensures
            final(self)@ == old(self)@.replace_range(start as int, end as int, replacement@),
            final(self).wf(),
    {
        let new_chars = to_chars(replacement);
        let mut out: Vec<char> = Vec::new();
        let mut i: usize = 0;
        while i < start
            invariant
                i <= start <= self.chars.len(),
                out@ == self.chars@.take(i as int),
            decreases start - i,
        {
            out.push(self.chars[i]);
            assert(self.chars@.take(i as int).push(self.chars@[i as int]) =~= self.chars@.take(
                i + 1,
            ));
            i += 1;
        }
        let mut j: usize = 0;
        while j < new_chars.len()
            invariant
                j <= new_chars.len(),
                out@ == self.chars@.take(start as int) + new_chars@.take(j as int),
            decreases new_chars.len() - j,
        {
            out.push(new_chars[j]);
            assert(new_chars@.take(j as int).push(new_chars@[j as int]) =~= new_chars@.take(j + 1));
            assert(out@ =~= self.chars@.take(start as int) + new_chars@.take(j + 1));
            j += 1;
        }
        assert(new_chars@.take(new_chars@.len() as int) =~= new_chars@);
        let mut k: usize = end;
        while k < self.chars.len()
            invariant
                end <= k <= self.chars.len(),
                out@ == self.chars@.take(start as int) + new_chars@ + self.chars@.subrange(
                    end as int,
                    k as int,
                ),
            decreases self.chars.len() - k,
        {
            out.push(self.chars[k]);
            assert(out@ =~= self.chars@.take(start as int) + new_chars@ + self.chars@.subrange(
                end as int,
                k + 1,
            ));
            k += 1;
        }
        assert(self.chars@.subrange(end as int, self.chars@.len() as int) =~= self.chars@.skip(
            end as int,
        ));
        let new_len = new_chars.len();
        let out_len = out.len();
        assert(out_len == start + new_len + (self.chars@.len() - end));
        self.chars = out;
        self.cursor = start + new_len;
    }

    /// Changes the task mark at the start of the text: a done mark is taken
    /// off, a to-do mark becomes a done mark, and a text with neither gets a
    /// to-do mark. The cursor stays at the same character where it can.
    pub fn toggle_todo(&mut self)
        requires
            old(self).wf(),
        ensures
            final(self)@ == old(self)@.toggle_todo(),
            final(self).wf(),
    {
        let todo = to_chars("{{[[TODO]]}} ");
        let done = to_chars("{{[[DONE]]}} ");
        proof {
            reveal_strlit("{{[[TODO]]}} ");
            reveal_strlit("{{[[DONE]]}} ");
            reveal_strlit("");
            assert(todo@.len() == 13);
            assert(done@.len() == 13);
        }
        let cursor = self.cursor;
        if chars_start_with(&self.chars, &done) {
            let prefix_len = done.len();
            self.replace_range(0, prefix_len, "");
            assert(self.chars@ =~= old(self).chars@.skip(prefix_len as int));
            self.cursor = if cursor >= prefix_len {
                cursor - prefix_len
            } else {
                0
            };
        } else if chars_start_with(&self.chars, &todo) {
            self.replace_range(0, todo.len(), "{{[[DONE]]}} ");
            assert(self.chars@ =~= done@ + old(self).chars@.skip(todo@.len() as int));
            self.cursor = cursor;
        } else {
            self.replace_range(0, 0, "{{[[TODO]]}} ");
            assert(self.chars@ =~= todo@ + old(self).chars@);
            let len = self.chars.len();
            assert(cursor + todo@.len() <= len);
            self.cursor = cursor + todo.len();
        }
    }
}

} // verus!

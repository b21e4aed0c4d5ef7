use crate::edit_buffer::{find_line_start, line_start, walk_on};
use crate::markdown::{first_single, range_begins_with, range_ends_with, trim_range, trimmed};
use crate::text::{
    begins_with, ends_with, from_chars, is_whitespace, push_char, push_str, str_eq, to_chars,
};
use crate::tree::visible_count;
use crate::types::{forest_view, Block, BlockView, DailyNote, DailyNoteView};
use vstd::prelude::*;
use vstd::string::StringSliceAdditionalSpecFns;
use vstd::utf8::encode_utf8;

verus! {

/// Whether the text of a block is a block of code: it begins with three
/// back quotes.
pub fn is_code_block(text: &str) -> (r: bool)
    ensures
        r == begins_with(text@, "```"@),
{
    crate::text::str_starts_with(text, "```")
}

/// Whether the text of a block is a quote: it begins with `> `.
pub fn is_blockquote(text: &str) -> (r: bool)
    ensures
        r == begins_with(text@, "> "@),
{
    crate::text::str_starts_with(text, "> ")
}

/// Whether code in the language `lang` is shown as marked-up text.
pub fn is_markdown_lang(lang: &str) -> (r: bool)
    ensures
        r == (lang@ == "md"@ || lang@ == "markdown"@ || lang@ == ""@),
{
    str_eq(lang, "md") || str_eq(lang, "markdown") || str_eq(lang, "")
}

/// The first `max_len` characters of `s`.
pub fn truncate(s: &str, max_len: usize) -> (r: String)
    ensures
        r@ == (if s@.len() <= max_len {
            s@
        } else {
            s@.take(max_len as int)
        }),
{
    let chars = to_chars(s);
    if chars.len() <= max_len {
        s.to_owned()
    } else {
        let r = from_chars(&chars, 0, max_len);
        assert(chars@.subrange(0, max_len as int) =~= s@.take(max_len as int));
        r
    }
}

/// `s` without `prefix` at its start, where it is there.
pub open spec fn without_prefix(s: Seq<char>, prefix: Seq<char>) -> Seq<char> {
    if begins_with(s, prefix) {
        s.skip(prefix.len() as int)
    } else {
        s
    }
}

/// `s` without `suffix` at its end, where it is there.
pub open spec fn without_suffix(s: Seq<char>, suffix: Seq<char>) -> Seq<char> {
    if ends_with(s, suffix) {
        s.take(s.len() - suffix.len())
    } else {
        s
    }
}

/// What stands between the fences of a block of code.
pub open spec fn code_content(text: Seq<char>) -> Seq<char> {
    without_prefix(without_suffix(without_prefix(text, "```"@), "```"@), "\n"@)
}

/// The first line of `content` without the white space round it, and what
/// follows that line.
pub open spec fn head_and_rest(content: Seq<char>) -> (Seq<char>, Seq<char>) {
    match first_single(content, 0, '\n') {
        Some(k) => (trimmed(content.take(k as int)), content.skip(k as int + 1)),
        None => (trimmed(content), Seq::empty()),
    }
}

/// The language of a block of code: the first line between its fences,
/// without the white space round it.
pub open spec fn code_lang(text: Seq<char>) -> Seq<char> {
    head_and_rest(code_content(text)).0
}

/// The code of a block of code: what follows the first line between its
/// fences.
pub open spec fn code_body(text: Seq<char>) -> Seq<char> {
    head_and_rest(code_content(text)).1
}

/// Where `chars[from..to]` begins once `prefix` is taken off its start.
pub fn skip_prefix(chars: &Vec<char>, from: usize, to: usize, prefix: &str) -> (r: usize)
    requires
        from <= to <= chars.len(),
    ensures
        from <= r <= to,
        chars@.subrange(r as int, to as int) == without_prefix(
            chars@.subrange(from as int, to as int),
            prefix@,
        ),
{
    if range_begins_with(chars, from, to, prefix) {
        let n = prefix.unicode_len();
        assert(chars@.subrange(from as int, to as int).skip(n as int) =~= chars@.subrange(
            from + n,
            to as int,
        ));
        from + n
    } else {
        from
    }
}

/// Where `chars[from..to]` ends once `suffix` is taken off its end.
pub fn skip_suffix(chars: &Vec<char>, from: usize, to: usize, suffix: &str) -> (r: usize)
    requires
        from <= to <= chars.len(),
    ensures
        from <= r <= to,
        chars@.subrange(from as int, r as int) == without_suffix(
            chars@.subrange(from as int, to as int),
            suffix@,
        ),
{
    if range_ends_with(chars, from, to, suffix) {
        let n = suffix.unicode_len();
        assert(chars@.subrange(from as int, to as int).take(to - from - n) =~= chars@.subrange(
            from as int,
            to - n,
        ));
        to - n
    } else {
        to
    }
}

/// Where in `chars` what stands between the fences of a block of code
/// begins and ends.
pub fn content_range(chars: &Vec<char>) -> (r: (usize, usize))
    ensures
        r.0 <= r.1 <= chars.len(),
        chars@.subrange(r.0 as int, r.1 as int) == code_content(chars@),
{
    assert(chars@.subrange(0, chars@.len() as int) =~= chars@);
    let a = skip_prefix(chars, 0, chars.len(), "```");
    let b = skip_suffix(chars, a, chars.len(), "```");
    let c = skip_prefix(chars, a, b, "\n");
    (c, b)
}

/// The first `delim` from `start` on is where none stands before it.
pub proof fn lemma_first_single_at(s: Seq<char>, start: int, k: int, delim: char)
    requires
        0 <= start <= k < s.len(),
        s[k] == delim,
        forall|j: int| start <= j < k ==> s[j] != delim,
    ensures
        first_single(s, start, delim) == Some((k - start) as nat),
    decreases k - start,
{
    if start < k {
        lemma_first_single_at(s, start + 1, k, delim);
    }
}

/// Where no `delim` stands from `start` on.
pub proof fn lemma_first_single_none(s: Seq<char>, start: int, delim: char)
    requires
        0 <= start,
        forall|j: int| start <= j < s.len() ==> s[j] != delim,
    ensures
        first_single(s, start, delim) is None,
    decreases s.len() - start,
{
    if start < s.len() {
        lemma_first_single_none(s, start + 1, delim);
    }
}

/// Place of the first `delim` in `chars[from..to]`.
pub fn find_in_range(chars: &Vec<char>, from: usize, to: usize, delim: char) -> (r: Option<usize>)
    requires
        from <= to <= chars.len(),
    ensures
        match r {
            Some(p) => from <= p < to && first_single(
                chars@.subrange(from as int, to as int),
                0,
                delim,
            ) == Some((p - from) as nat),
            None => first_single(chars@.subrange(from as int, to as int), 0, delim) is None,
        },
{
    let ghost content = chars@.subrange(from as int, to as int);
    let mut i = from;
    while i < to
        invariant
            from <= i <= to <= chars.len(),
            content == chars@.subrange(from as int, to as int),
            forall|j: int| 0 <= j < i - from ==> content[j] != delim,
        decreases to - i,
    {
        if chars[i] == delim {
            proof {
                lemma_first_single_at(content, 0, i - from, delim);
            }
            return Some(i);
        }
        i += 1;
    }
    proof {
        lemma_first_single_none(content, 0, delim);
    }
    None
}

/// The first line of `chars[from..to]` without the white space round it,
/// and what follows that line.
pub fn split_head(chars: &Vec<char>, from: usize, to: usize) -> (r: (String, String))
    requires
        from <= to <= chars.len(),
    ensures
        (r.0@, r.1@) == head_and_rest(chars@.subrange(from as int, to as int)),
{
    let ghost content = chars@.subrange(from as int, to as int);
    match find_in_range(chars, from, to, '\n') {
        Some(i) => {
            let (a, b) = trim_range(chars, from, i);
            let head = from_chars(chars, a, b);
            let rest = from_chars(chars, i + 1, to);
            proof {
                assert(chars@.subrange(from as int, i as int) =~= content.take(i - from));
                assert(chars@.subrange(i + 1, to as int) =~= content.skip(i - from + 1));
            }
            (head, rest)
        },
        None => {
            let (a, b) = trim_range(chars, from, to);
            (from_chars(chars, a, b), String::new())
        },
    }
}

/// The language and the code of the block of code `text`.
pub fn parse_code_block(text: &str) -> (r: (String, String))
    ensures
        r.0@ == code_lang(text@),
        r.1@ == code_body(text@),
{
    let chars = to_chars(text);
    let (from, to) = content_range(&chars);
    split_head(&chars, from, to)
}

/// The places at which a line of `len` characters is broken so that the
/// first part has at most `first_width` characters and each later part at
/// most `cont_width`: after the last space within reach, or where the
/// width ends where there is none. `pos` is where the part begins that is
/// looked at, and `width` what it may hold.
pub open spec fn breaks_from(chars: Seq<char>, pos: int, width: int, cont_width: int) -> Seq<int>
    decreases chars.len() - pos,
{
    if pos < 0 || width < 1 || cont_width < 1 || chars.len() - pos <= width {
        Seq::empty()
    } else {
        let at = break_point(chars, pos, pos + width);
        proof {
            lemma_break_point(chars, pos, pos + width);
        }
        seq![at] + breaks_from(chars, at, cont_width, cont_width)
    }
}

pub proof fn lemma_break_point(chars: Seq<char>, pos: int, end: int)
    requires
        0 <= pos < end <= chars.len(),
    ensures
        pos < break_point(chars, pos, end) <= end,
{
    lemma_last_space(chars, pos, end - 1);
}

/// The place after the last space of `chars[pos..end]`; `end` where there
/// is none.
pub open spec fn break_point(chars: Seq<char>, pos: int, end: int) -> int
    decreases end - pos,
{
    if end <= pos || end > chars.len() {
        end
    } else if chars[end - 1] == ' ' {
        end
    } else if last_space(chars, pos, end - 1) is Some {
        last_space(chars, pos, end - 1).unwrap() + 1
    } else {
        end
    }
}

/// Place of the last space of `chars[pos..end]`.
pub open spec fn last_space(chars: Seq<char>, pos: int, end: int) -> Option<int>
    decreases end - pos,
{
    if end <= pos || end > chars.len() {
        None
    } else if chars[end - 1] == ' ' {
        Some(end - 1)
    } else {
        last_space(chars, pos, end - 1)
    }
}

pub proof fn lemma_last_space(chars: Seq<char>, pos: int, end: int)
    requires
        0 <= pos <= end <= chars.len(),
    ensures
        last_space(chars, pos, end) matches Some(k) ==> pos <= k < end,
    decreases end - pos,
{
    if end > pos && chars[end - 1] != ' ' {
        lemma_last_space(chars, pos, end - 1);
    }
}

/// Place of the last space of `chars[pos..end]`.
pub fn find_last_space(chars: &Vec<char>, pos: usize, end: usize) -> (r: Option<usize>)
    requires
        pos <= end <= chars.len(),
    ensures
        match r {
            Some(k) => last_space(chars@, pos as int, end as int) == Some(k as int) && pos <= k
                < end,
            None => last_space(chars@, pos as int, end as int) is None,
        },
{
    let mut e = end;
    while e > pos
        invariant
            pos <= e <= end <= chars.len(),
            last_space(chars@, pos as int, end as int) == last_space(chars@, pos as int, e as int),
        decreases e - pos,
    {
        if chars[e - 1] == ' ' {
            return Some(e - 1);
        }
        e -= 1;
    }
    None
}

/// The places at which `chars` are broken into lines: the first of at most
/// `first_width` characters, the others of at most `cont_width`; a width of
/// 0 counts as 1. A line is broken after its last space, or where the
/// width ends where it has none.
pub fn wrap_breaks(chars: &Vec<char>, first_width: usize, cont_width: usize) -> (r: Vec<usize>)
    ensures
        Seq::new(r@.len(), |i: int| r@[i] as int) == breaks_from(
            chars@,
            0,
            if first_width < 1 {
                1
            } else {
                first_width as int
            },
            if cont_width < 1 {
                1
            } else {
                cont_width as int
            },
        ),
        forall|i: int| 0 <= i < r@.len() ==> 0 < #[trigger] r@[i] <= chars.len(),
{
    let first_width = if first_width < 1 {
        1
    } else {
        first_width
    };
    let cont_width = if cont_width < 1 {
        1
    } else {
        cont_width
    };
    let total = chars.len();
    let mut out: Vec<usize> = Vec::new();
    let mut pos: usize = 0;
    let mut width = first_width;
    let ghost all = breaks_from(chars@, 0, first_width as int, cont_width as int);
    proof {
        assert(Seq::new(out@.len(), |i: int| out@[i] as int) + all =~= all);
    }
    while total - pos > width
        invariant
            pos <= total,
            total == chars.len(),
            width >= 1,
            cont_width >= 1,
            width == first_width || width == cont_width,
            all == Seq::new(out@.len(), |i: int| out@[i] as int) + breaks_from(
                chars@,
                pos as int,
                width as int,
                cont_width as int,
            ),
            forall|i: int| 0 <= i < out@.len() ==> 0 < #[trigger] out@[i] <= total,
        decreases total - pos,
    {
        let end = pos + width;
        let at = if chars[end - 1] == ' ' {
            end
        } else {
            match find_last_space(chars, pos, end - 1) {
                Some(k) => k + 1,
                None => end,
            }
        };
        proof {
            lemma_last_space(chars@, pos as int, end - 1);
            assert(at == break_point(chars@, pos as int, end as int));
        }
        let ghost before = Seq::new(out@.len(), |i: int| out@[i] as int);
        out.push(at);
        proof {
            assert(Seq::new(out@.len(), |i: int| out@[i] as int) =~= before.push(at as int));
            assert(before + (seq![at as int] + breaks_from(
                chars@,
                at as int,
                cont_width as int,
                cont_width as int,
            )) =~= before.push(at as int) + breaks_from(
                chars@,
                at as int,
                cont_width as int,
                cont_width as int,
            ));
        }
        pos = at;
        width = cont_width;
    }
    proof {
        assert(breaks_from(chars@, pos as int, width as int, cont_width as int)
            =~= Seq::<int>::empty());
        assert(all =~= Seq::new(out@.len(), |i: int| out@[i] as int));
    }
    out
}

/// The words of `s` from position `i` on: the runs of characters that are
/// no white space.
pub open spec fn words_from(s: Seq<char>, i: int) -> Seq<Seq<char>>
    decreases s.len() - i,
{
    if i < 0 || i >= s.len() {
        Seq::empty()
    } else {
        let start = walk_on(s, i, true);
        if start >= s.len() {
            Seq::empty()
        } else {
            let end = walk_on(s, start, false);
            proof {
                crate::edit_buffer::lemma_walk_on_bounds(s, i, true);
                crate::edit_buffer::lemma_walk_on_bounds(s, start, false);
            }
            if end <= start {
                Seq::empty()
            } else {
                seq![s.subrange(start, end)] + words_from(s, end)
            }
        }
    }
}

/// What a text takes as UTF-8, in bytes.
pub open spec fn byte_len(s: Seq<char>) -> nat {
    encode_utf8(s).len()
}

/// The lines that come of putting the words from place `i` on after the
/// lines `lines` and the line `current` that is being filled: a word goes
/// on the line with a space before it while the line stays within `max`
/// bytes, and else begins a new line.
pub open spec fn filled(
    words: Seq<Seq<char>>,
    i: int,
    max: nat,
    lines: Seq<Seq<char>>,
    current: Seq<char>,
) -> Seq<Seq<char>>
    decreases words.len() - i,
{
    if i < 0 || i >= words.len() {
        let all = if current.len() > 0 {
            lines.push(current)
        } else {
            lines
        };
        if all.len() == 0 {
            seq![Seq::empty()]
        } else {
            all
        }
    } else if current.len() == 0 {
        filled(words, i + 1, max, lines, words[i])
    } else if byte_len(current) + 1 + byte_len(words[i]) <= max {
        filled(words, i + 1, max, lines, current + seq![' '] + words[i])
    } else {
        filled(words, i + 1, max, lines.push(current), words[i])
    }
}

/// The text in lines of at most `max_width` bytes, broken between words;
/// a width of 0 leaves the text as it is.
pub open spec fn wrapped(text: Seq<char>, max_width: nat) -> Seq<Seq<char>> {
    if max_width == 0 {
        seq![text]
    } else {
        filled(words_from(text, 0), 0, max_width, Seq::empty(), Seq::empty())
    }
}

/// The words of `text`.
pub fn split_words(text: &str) -> (r: Vec<String>)
    ensures
        crate::types::strings_view(r@) == words_from(text@, 0),
{
    let chars = to_chars(text);
    let len = chars.len();
    let mut out: Vec<String> = Vec::new();
    let mut i: usize = 0;
    proof {
        assert(crate::types::strings_view(out@) + words_from(chars@, 0) =~= words_from(chars@, 0));
    }
    while i < len
        invariant
            i <= len,
            len == chars.len(),
            chars@ == text@,
            words_from(chars@, 0) == crate::types::strings_view(out@) + words_from(
                chars@,
                i as int,
            ),
        decreases len - i,
    {
        let mut start = i;
        while start < len && is_whitespace(chars[start])
            invariant
                i <= start <= len,
                len == chars.len(),
                walk_on(chars@, i as int, true) == walk_on(chars@, start as int, true),
            decreases len - start,
        {
            start += 1;
        }
        if start >= len {
            i = len;
        } else {
            let mut end = start;
            while end < len && !is_whitespace(chars[end])
                invariant
                    start <= end <= len,
                    len == chars.len(),
                    walk_on(chars@, start as int, false) == walk_on(chars@, end as int, false),
                decreases len - end,
            {
                end += 1;
            }
            let ghost before = crate::types::strings_view(out@);
            let word = from_chars(&chars, start, end);
            out.push(word);
            proof {
                assert(end > start);
                assert(crate::types::strings_view(out@) =~= before.push(word@));
                assert(before + (seq![word@] + words_from(chars@, end as int)) =~= before.push(
                    word@,
                ) + words_from(chars@, end as int));
            }
            i = end;
        }
    }
    proof {
        assert(crate::types::strings_view(out@) + Seq::<Seq<char>>::empty()
            =~= crate::types::strings_view(out@));
    }
    out
}

/// The text in lines of at most `max_width` bytes, broken between words;
/// a width of 0 leaves the text as it is.
pub fn wrap_text(text: &str, max_width: usize) -> (r: Vec<String>)
    ensures
        crate::types::strings_view(r@) == wrapped(text@, max_width as nat),
{
    let mut lines: Vec<String> = Vec::new();
    if max_width == 0 {
        lines.push(text.to_owned());
        assert(crate::types::strings_view(lines@) =~= seq![text@]);
        return lines;
    }
    let words = split_words(text);
    let ghost w = crate::types::strings_view(words@);
    let mut current = String::new();
    let mut i: usize = 0;
    proof {
        assert(crate::types::strings_view(lines@) =~= Seq::<Seq<char>>::empty());
    }
    while i < words.len()
        invariant
            i <= words.len(),
            w == crate::types::strings_view(words@),
            w == words_from(text@, 0),
            filled(w, 0, max_width as nat, Seq::empty(), Seq::empty()) == filled(
                w,
                i as int,
                max_width as nat,
                crate::types::strings_view(lines@),
                current@,
            ),
        decreases words.len() - i,
    {
        let ghost done = crate::types::strings_view(lines@);
        let ghost prev = current@;
        proof {
            assert(w[i as int] == words@[i as int]@);
        }
        if current.as_str().is_empty() {
            current = words[i].clone();
        } else {
            let needed = current.as_str().as_bytes().len() as u128 + 1
                + words[i].as_str().as_bytes().len() as u128;
            if needed <= max_width as u128 {
                push_char(&mut current, ' ');
                push_str(&mut current, words[i].as_str());
                proof {
                    assert(current@ =~= prev + seq![' '] + w[i as int]);
                }
            } else {
                let mut line = words[i].clone();
                std::mem::swap(&mut current, &mut line);
                lines.push(line);
                proof {
                    assert(crate::types::strings_view(lines@) =~= done.push(line@));
                }
            }
        }
        i += 1;
    }
    let ghost done = crate::types::strings_view(lines@);
    if !current.as_str().is_empty() {
        lines.push(current);
        proof {
            assert(crate::types::strings_view(lines@) =~= done.push(current@));
        }
    }
    if lines.len() == 0 {
        lines.push(String::new());
        proof {
            assert(crate::types::strings_view(lines@) =~= seq![Seq::<char>::empty()]);
        }
    }
    lines
}

/// A row of the outline as it is laid out, before it is drawn.
#[derive(Debug, PartialEq)]
pub enum OutlineRow {
    DayHeading(String),
    DaySeparator,
    Block { depth: usize, text: String, block_index: usize, collapsed_children: usize },
    /// A block of code, with its language and its code.
    Code { depth: usize, lang: String, code: String, block_index: usize },
    Blockquote { depth: usize, text: String, block_index: usize },
    LoadingMore,
}

/// What an [`OutlineRow`] is, as a mathematical value.
pub enum RowShape {
    DayHeading(Seq<char>),
    DaySeparator,
    Block { depth: nat, text: Seq<char>, block_index: nat, collapsed_children: nat },
    Code { depth: nat, lang: Seq<char>, code: Seq<char>, block_index: nat },
    Blockquote { depth: nat, text: Seq<char>, block_index: nat },
    LoadingMore,
}

impl View for OutlineRow {
    type V = RowShape;

    open spec fn view(&self) -> RowShape {
        match self {
            OutlineRow::DayHeading(t) => RowShape::DayHeading(t@),
            OutlineRow::DaySeparator => RowShape::DaySeparator,
            OutlineRow::Block { depth, text, block_index, collapsed_children } => RowShape::Block {
                depth: *depth as nat,
                text: text@,
                block_index: *block_index as nat,
                collapsed_children: *collapsed_children as nat,
            },
            OutlineRow::Code { depth, lang, code, block_index } => RowShape::Code {
                depth: *depth as nat,
                lang: lang@,
                code: code@,
                block_index: *block_index as nat,
            },
            OutlineRow::Blockquote { depth, text, block_index } => RowShape::Blockquote {
                depth: *depth as nat,
                text: text@,
                block_index: *block_index as nat,
            },
            OutlineRow::LoadingMore => RowShape::LoadingMore,
        }
    }
}

/// The views of a list of rows.
pub open spec fn row_shapes(s: Seq<OutlineRow>) -> Seq<RowShape> {
    Seq::new(s.len(), |i: int| s[i]@)
}

/// The row of the block `b` at depth `depth`, where `index` counts the
/// blocks shown before it: a block of code, a quote without its mark, or a
/// plain block with the number of sub-blocks that it hides.
pub open spec fn row_of(b: BlockView, depth: nat, index: nat) -> RowShape {
    if begins_with(b.text, "```"@) {
        RowShape::Code {
            depth: depth,
            lang: code_lang(b.text),
            code: code_body(b.text),
            block_index: index,
        }
    } else if begins_with(b.text, "> "@) {
        RowShape::Blockquote { depth: depth, text: b.text.skip(2), block_index: index }
    } else {
        RowShape::Block {
            depth: depth,
            text: b.text,
            block_index: index,
            collapsed_children: if !b.open {
                b.children.len()
            } else {
                0
            },
        }
    }
}

/// The rows of the blocks `f` at depth `depth`, each block before its
/// sub-blocks, which are laid out only while it is open.
pub open spec fn rows_of(f: Seq<BlockView>, depth: nat, index: nat) -> Seq<RowShape>
    decreases f,
{
    if f.len() == 0 {
        Seq::empty()
    } else {
        seq![row_of(f[0], depth, index)] + (if f[0].open {
            rows_of(f[0].children, depth + 1, index + 1)
        } else {
            Seq::empty()
        }) + rows_of(f.skip(1), depth, index + crate::tree::rows(f[0]))
    }
}

/// The rows of the pages from page `i` on: each page under its title, with
/// a separator between two pages.
pub open spec fn page_rows(days: Seq<DailyNoteView>, i: int, index: nat) -> Seq<RowShape>
    decreases days.len() - i,
{
    if i < 0 || i >= days.len() {
        Seq::empty()
    } else {
        (if i > 0 {
            seq![RowShape::DaySeparator]
        } else {
            Seq::empty()
        }) + seq![RowShape::DayHeading(days[i].title)] + rows_of(days[i].blocks, 0, index)
            + page_rows(days, i + 1, index + visible_count(days[i].blocks))
    }
}

/// All rows of the outline; where an older page is awaited, a separator and
/// a row that says so follow.
pub open spec fn outline_rows(days: Seq<DailyNoteView>, loading_more: bool) -> Seq<RowShape> {
    page_rows(days, 0, 0) + (if loading_more {
        seq![RowShape::DaySeparator, RowShape::LoadingMore]
    } else {
        Seq::empty()
    })
}

/// Adds the rows of `blocks` to `lines`, with `block_index` counting the
/// blocks.
pub fn flatten_blocks(
    blocks: &Vec<Block>,
    depth: usize,
    lines: &mut Vec<OutlineRow>,
    block_index: &mut usize,
)
    requires
        *old(block_index) + visible_count(forest_view(blocks@)) <= usize::MAX,
        depth + visible_count(forest_view(blocks@)) <= usize::MAX,
    ensures
        row_shapes(final(lines)@) == row_shapes(old(lines)@) + rows_of(
            forest_view(blocks@),
            depth as nat,
            *old(block_index) as nat,
        ),
        *final(block_index) == *old(block_index) + visible_count(forest_view(blocks@)),
    decreases blocks@,
{
    let ghost f = forest_view(blocks@);
    let ghost start = row_shapes(lines@);
    let ghost base = *block_index;
    let mut i: usize = 0;
    proof {
        assert(f.skip(0) =~= f);
        assert(start + rows_of(f, depth as nat, base as nat) =~= start + rows_of(
            f.skip(0),
            depth as nat,
            base as nat,
        ));
    }
    while i < blocks.len()
        invariant
            i <= blocks.len(),
            f == forest_view(blocks@),
            f.len() == blocks.len(),
            base == *old(block_index),
            start == row_shapes(old(lines)@),
            base + visible_count(f) <= usize::MAX,
            depth + visible_count(f) <= usize::MAX,
            *block_index >= base,
            *block_index + visible_count(f.skip(i as int)) == base + visible_count(f),
            start + rows_of(f, depth as nat, base as nat) == row_shapes(lines@) + rows_of(
                f.skip(i as int),
                depth as nat,
                *block_index as nat,
            ),
        decreases blocks.len() - i,
    {
        let ghost done = row_shapes(lines@);
        let ghost index = *block_index;
        proof {
            crate::blocks::lemma_count_step(f, i as int);
            crate::blocks::lemma_skip_step(f, i as int);
            crate::blocks::lemma_view_index(blocks@, i as int);
            assert(f[i as int].text == blocks@[i as int].string@);
            assert(f[i as int].children.len() == blocks@[i as int].children@.len());
            reveal_strlit("> ");
        }
        let text = blocks[i].string.as_str();
        let row = if is_code_block(text) {
            let (lang, code) = parse_code_block(text);
            OutlineRow::Code { depth, lang, code, block_index: *block_index }
        } else if is_blockquote(text) {
            let chars = to_chars(text);
            let quoted = from_chars(&chars, 2, chars.len());
            proof {
                assert(chars@.subrange(2, chars@.len() as int) =~= text@.skip(2));
            }
            OutlineRow::Blockquote { depth, text: quoted, block_index: *block_index }
        } else {
            let collapsed_children = if !blocks[i].open && blocks[i].children.len() > 0 {
                blocks[i].children.len()
            } else {
                0
            };
            OutlineRow::Block {
                depth,
                text: blocks[i].string.clone(),
                block_index: *block_index,
                collapsed_children,
            }
        };
        proof {
            assert(row@ == row_of(f[i as int], depth as nat, index as nat));
        }
        lines.push(row);
        proof {
            assert(row_shapes(lines@) =~= done.push(row@));
        }
        *block_index = *block_index + 1;
        if blocks[i].open {
            flatten_blocks(&blocks[i].children, depth + 1, lines, block_index);
        }
        proof {
            let below = if f[i as int].open {
                rows_of(f[i as int].children, (depth + 1) as nat, (index + 1) as nat)
            } else {
                Seq::empty()
            };
            assert(row_shapes(lines@) =~= done + seq![row@] + below);
            assert(done + (seq![row@] + below + rows_of(
                f.skip(i + 1),
                depth as nat,
                *block_index as nat,
            )) =~= row_shapes(lines@) + rows_of(f.skip(i + 1), depth as nat, *block_index as nat));
        }
        i += 1;
    }
    proof {
        assert(f.skip(f.len() as int) =~= Seq::<BlockView>::empty());
        assert(row_shapes(lines@) + Seq::<RowShape>::empty() =~= row_shapes(lines@));
    }
}

/// All rows of the outline: each page under its title, with a separator
/// between two pages, and a note at the end where an older page is awaited.
pub fn build_visible_lines(days: &Vec<DailyNote>, loading_more: bool) -> (lines: Vec<OutlineRow>)
    requires
        crate::doc::flat_count(crate::types::days_view(days@)) <= usize::MAX,
    ensures
        row_shapes(lines@) == outline_rows(crate::types::days_view(days@), loading_more),
{
    let ghost d = crate::types::days_view(days@);
    let mut lines: Vec<OutlineRow> = Vec::new();
    let mut block_index: usize = 0;
    let mut i: usize = 0;
    proof {
        assert(d.skip(0) =~= d);
        assert(row_shapes(lines@) + page_rows(d, 0, 0) =~= page_rows(d, 0, 0));
    }
    while i < days.len()
        invariant
            i <= days.len(),
            d == crate::types::days_view(days@),
            d.len() == days.len(),
            crate::doc::flat_count(d) <= usize::MAX,
            block_index + crate::doc::flat_count(d.skip(i as int)) == crate::doc::flat_count(d),
            page_rows(d, 0, 0) == row_shapes(lines@) + page_rows(d, i as int, block_index as nat),
        decreases days.len() - i,
    {
        let ghost done = row_shapes(lines@);
        let ghost index = block_index;
        proof {
            crate::blocks::lemma_skip_step(d, i as int);
            assert(d[i as int].blocks == forest_view(days@[i as int].blocks@));
        }
        if i > 0 {
            lines.push(OutlineRow::DaySeparator);
        }
        let ghost mid = lines@;
        lines.push(OutlineRow::DayHeading(days[i].title.clone()));
        let ghost head = row_shapes(lines@);
        proof {
            assert(head =~= done + (if i > 0 {
                seq![RowShape::DaySeparator]
            } else {
                Seq::empty()
            }) + seq![RowShape::DayHeading(d[i as int].title)]);
        }
        flatten_blocks(&days[i].blocks, 0, &mut lines, &mut block_index);
        proof {
            assert(done + ((if i > 0 {
                seq![RowShape::DaySeparator]
            } else {
                Seq::empty()
            }) + seq![RowShape::DayHeading(d[i as int].title)] + rows_of(
                d[i as int].blocks,
                0,
                index as nat,
            ) + page_rows(d, i + 1, block_index as nat)) =~= row_shapes(lines@) + page_rows(
                d,
                i + 1,
                block_index as nat,
            ));
        }
        i += 1;
    }
    let ghost pages = row_shapes(lines@);
    if loading_more {
        lines.push(OutlineRow::DaySeparator);
        lines.push(OutlineRow::LoadingMore);
    }
    proof {
        assert(pages + Seq::<RowShape>::empty() =~= pages);
        assert(row_shapes(lines@) =~= outline_rows(d, loading_more));
    }
    lines
}

/// All rows of the outline, as [`build_visible_lines`] gives them; none
/// where the pages hold more blocks than can be counted.
pub fn visible_lines(days: &Vec<DailyNote>, loading_more: bool) -> (r: Option<Vec<OutlineRow>>)
    ensures
        r matches Some(lines) ==> row_shapes(lines@) == outline_rows(
            crate::types::days_view(days@),
            loading_more,
        ),
        r is None <==> crate::bounds::doc_size(crate::types::days_view(days@), Seq::empty())
            > usize::MAX,
{
    let none: crate::maps::StringMap<crate::state::LinkedRefsState> = crate::maps::StringMap::new();
    match crate::bounds::doc_total(days, &none) {
        Some(_) => {
            proof {
                crate::bounds::lemma_rows_le_size(crate::types::days_view(days@), none@);
            }
            Some(build_visible_lines(days, loading_more))
        },
        None => None,
    }
}

/// The row that is shown first, so that the row `selected_row` of `total`
/// rows stands in the middle of a view of `viewport_height` rows where it
/// can, and the last rows fill the view.
pub open spec fn scroll_start(selected_row: nat, total: nat, viewport_height: nat) -> nat {
    let half = viewport_height / 2;
    let last_start = if total >= viewport_height {
        (total - viewport_height) as nat
    } else {
        0
    };
    if selected_row > half {
        if selected_row - half < last_start {
            (selected_row - half) as nat
        } else {
            last_start
        }
    } else {
        0
    }
}

/// The row that is shown first.
pub fn scroll_offset(selected_row: usize, total: usize, viewport_height: usize) -> (r: usize)
    ensures
        r == scroll_start(selected_row as nat, total as nat, viewport_height as nat),
{
    let half = viewport_height / 2;
    let last_start = if total >= viewport_height {
        total - viewport_height
    } else {
        0
    };
    if selected_row > half {
        if selected_row - half < last_start {
            selected_row - half
        } else {
            last_start
        }
    } else {
        0
    }
}

/// Line breaks among the first `upto` characters.
pub open spec fn breaks_before(chars: Seq<char>, upto: int) -> nat
    decreases upto,
{
    if upto <= 0 || upto > chars.len() {
        0
    } else {
        breaks_before(chars, upto - 1) + (if chars[upto - 1] == '\n' {
            1nat
        } else {
            0nat
        })
    }
}

/// The line and the column at which the cursor stands in a text of several
/// lines; a cursor past the end stands at the start of the last line.
pub open spec fn line_and_column(chars: Seq<char>, cursor: nat) -> (nat, nat) {
    if cursor <= chars.len() {
        (breaks_before(chars, cursor as int), (cursor - line_start(chars, cursor as int)) as nat)
    } else {
        (breaks_before(chars, chars.len() as int), 0)
    }
}

/// The line and the column at which the cursor stands.
pub fn cursor_line_col(chars: &Vec<char>, cursor: usize) -> (r: (usize, usize))
    ensures
        (r.0 as nat, r.1 as nat) == line_and_column(chars@, cursor as nat),
{
    let upto = if cursor <= chars.len() {
        cursor
    } else {
        chars.len()
    };
    let mut line: usize = 0;
    let mut i: usize = 0;
    while i < upto
        invariant
            i <= upto <= chars.len(),
            line <= i,
            line == breaks_before(chars@, i as int),
        decreases upto - i,
    {
        if chars[i] == '\n' {
            line += 1;
        }
        i += 1;
    }
    if cursor <= chars.len() {
        let start = find_line_start(chars, cursor);
        (line, cursor - start)
    } else {
        (line, 0)
    }
}

} // verus!

use crate::edit_buffer::walk_on;
use crate::maps::{lookup, StringMap};
use crate::text::{
    begins_with, ends_with, from_chars, is_whitespace, is_whitespace_char, push_char, push_str,
    to_chars,
};
use crate::types::{days_view, forest_view, Block, BlockView, DailyNote, DailyNoteView};
use vstd::prelude::*;

verus! {

/// How far after `start` the first `delim` stands.
pub open spec fn first_single(chars: Seq<char>, start: int, delim: char) -> Option<nat>
    decreases chars.len() - start,
{
    if start < 0 || start >= chars.len() {
        None
    } else if chars[start] == delim {
        Some(0)
    } else {
        match first_single(chars, start + 1, delim) {
            Some(k) => Some(k + 1),
            None => None,
        }
    }
}

/// How far after `start` the first doubled `delim` begins.
pub open spec fn first_double(chars: Seq<char>, start: int, delim: char) -> Option<nat>
    decreases chars.len() - start,
{
    if start < 0 || start + 1 >= chars.len() {
        None
    } else if chars[start] == delim && chars[start + 1] == delim {
        Some(0)
    } else {
        match first_double(chars, start + 1, delim) {
            Some(k) => Some(k + 1),
            None => None,
        }
    }
}

pub proof fn lemma_first_single(chars: Seq<char>, start: int, delim: char)
    ensures
        first_single(chars, start, delim) matches Some(k) ==> start + k < chars.len() && chars[start
            + k] == delim,
    decreases chars.len() - start,
{
    if 0 <= start < chars.len() && chars[start] != delim {
        lemma_first_single(chars, start + 1, delim);
    }
}

pub proof fn lemma_first_double(chars: Seq<char>, start: int, delim: char)
    ensures
        first_double(chars, start, delim) matches Some(k) ==> start + k + 1 < chars.len()
            && chars[start + k] == delim && chars[start + k + 1] == delim,
    decreases chars.len() - start,
{
    if 0 <= start && start + 1 < chars.len() && !(chars[start] == delim && chars[start + 1]
        == delim) {
        lemma_first_double(chars, start + 1, delim);
    }
}

/// Place of the first `delim` from `start` on.
pub fn find_single_delimiter(chars: &Vec<char>, start: usize, delim: char) -> (r: Option<usize>)
    ensures
        match r {
            Some(p) => first_single(chars@, start as int, delim) == Some((p - start) as nat) && start
                <= p < chars.len(),
            None => first_single(chars@, start as int, delim) is None,
        },
{
    let mut i = start;
    while i < chars.len()
        invariant
            start <= i,
            first_single(chars@, start as int, delim) == (match first_single(
                chars@,
                i as int,
                delim,
            ) {
                Some(k) => Some((k + (i - start)) as nat),
                None => None,
            }),
        decreases chars.len() - i,
    {
        if chars[i] == delim {
            return Some(i);
        }
        i += 1;
    }
    None
}

/// Place where the first doubled `delim` from `start` on begins.
pub fn find_double_delimiter(chars: &Vec<char>, start: usize, delim: char) -> (r: Option<usize>)
    ensures
        match r {
            Some(p) => first_double(chars@, start as int, delim) == Some((p - start) as nat) && start
                <= p && p + 1 < chars.len(),
            None => first_double(chars@, start as int, delim) is None,
        },
{
    let mut i = start;
    while i < chars.len() && i + 1 < chars.len()
        invariant
            start <= i,
            first_double(chars@, start as int, delim) == (match first_double(
                chars@,
                i as int,
                delim,
            ) {
                Some(k) => Some((k + (i - start)) as nat),
                None => None,
            }),
        decreases chars.len() - i,
    {
        if chars[i] == delim && chars[i + 1] == delim {
            return Some(i);
        }
        i += 1;
    }
    None
}

/// Place where the first `}}` from `start` on begins.
pub fn find_closing_double_brace(chars: &Vec<char>, start: usize) -> (r: Option<usize>)
    ensures
        match r {
            Some(p) => first_double(chars@, start as int, '}') == Some((p - start) as nat) && start
                <= p && p + 1 < chars.len(),
            None => first_double(chars@, start as int, '}') is None,
        },
{
    find_double_delimiter(chars, start, '}')
}

/// `acc` with the page name `name` added, unless it is empty or already there.
pub open spec fn with_link(acc: Seq<Seq<char>>, name: Seq<char>) -> Seq<Seq<char>> {
    if name.len() > 0 && !acc.contains(name) {
        acc.push(name)
    } else {
        acc
    }
}

/// The names of the pages that the text links to from position `i` on, after
/// those of `acc`: what stands in `[[..]]`, with or without `#` before it.
/// Text in back quotes is passed over. Each name is given once, where it
/// first occurs.
pub open spec fn links_from(chars: Seq<char>, i: int, acc: Seq<Seq<char>>) -> Seq<Seq<char>>
    decreases chars.len() - i,
{
    if i < 0 || i >= chars.len() {
        acc
    } else if chars[i] == '`' && first_single(chars, i + 1, '`') is Some {
        proof {
            lemma_first_single(chars, i + 1, '`');
        }
        links_from(chars, i + 1 + first_single(chars, i + 1, '`').unwrap() + 1, acc)
    } else if chars[i] == '#' && i + 2 < chars.len() && chars[i + 1] == '[' && chars[i + 2]
        == '[' && first_double(chars, i + 3, ']') is Some {
        let k = first_double(chars, i + 3, ']').unwrap();
        proof {
            lemma_first_double(chars, i + 3, ']');
        }
        links_from(chars, i + 3 + k + 2, with_link(acc, chars.subrange(i + 3, i + 3 + k)))
    } else if chars[i] == '[' && i + 1 < chars.len() && chars[i + 1] == '['
        && first_double(chars, i + 2, ']') is Some {
        let k = first_double(chars, i + 2, ']').unwrap();
        proof {
            lemma_first_double(chars, i + 2, ']');
        }
        links_from(chars, i + 2 + k + 2, with_link(acc, chars.subrange(i + 2, i + 2 + k)))
    } else {
        links_from(chars, i + 1, acc)
    }
}

/// The names of the pages that a text links to.
pub open spec fn page_links(text: Seq<char>) -> Seq<Seq<char>> {
    links_from(text, 0, Seq::empty())
}

/// Whether `name` is among `links`.
pub fn links_contain(links: &Vec<String>, name: &str) -> (r: bool)
    ensures
        r == crate::types::strings_view(links@).contains(name@),
{
    let mut i: usize = 0;
    while i < links.len()
        invariant
            i <= links.len(),
            forall|j: int| 0 <= j < i ==> crate::types::strings_view(links@)[j] != name@,
        decreases links.len() - i,
    {
        if crate::text::str_eq(links[i].as_str(), name) {
            assert(crate::types::strings_view(links@)[i as int] == name@);
            return true;
        }
        i += 1;
    }
    false
}

/// Adds the page name `chars[from..to]` to `links`, unless it is empty or
/// already there.
pub fn add_link(links: &mut Vec<String>, chars: &Vec<char>, from: usize, to: usize)
    requires
        from <= to <= chars.len(),
    ensures
        crate::types::strings_view(final(links)@) == with_link(
            crate::types::strings_view(old(links)@),
            chars@.subrange(from as int, to as int),
        ),
{
    let name = from_chars(chars, from, to);
    if !name.as_str().is_empty() && !links_contain(links, name.as_str()) {
        links.push(name);
        assert(crate::types::strings_view(links@) =~= crate::types::strings_view(old(links)@).push(
            name@,
        ));
    }
}

/// The names of the pages that `text` links to: what stands in `[[..]]`,
/// with or without `#` before it, but not within back quotes. Each name is
/// given once, where it first occurs.
pub fn extract_page_links(text: &str) -> (links: Vec<String>)
    ensures
        crate::types::strings_view(links@) == page_links(text@),
{
    let chars = to_chars(text);
    let len = chars.len();
    let mut links: Vec<String> = Vec::new();
    let mut i: usize = 0;
    proof {
        assert(crate::types::strings_view(links@) =~= Seq::<Seq<char>>::empty());
    }
    while i < len
        invariant
            len == chars.len(),
            chars@ == text@,
            links_from(chars@, 0, Seq::empty()) == links_from(
                chars@,
                i as int,
                crate::types::strings_view(links@),
            ),
        decreases len - i,
    {
        if chars[i] == '`' {
            match find_single_delimiter(&chars, i + 1, '`') {
                Some(end) => {
                    i = end + 1;
                    continue ;
                },
                None => {},
            }
        }
        if chars[i] == '#' && i + 1 < len && i + 2 < len && chars[i + 1] == '[' && chars[i + 2]
            == '[' {
            match find_double_delimiter(&chars, i + 3, ']') {
                Some(end) => {
                    add_link(&mut links, &chars, i + 3, end);
                    i = end + 2;
                    continue ;
                },
                None => {},
            }
        }
        if chars[i] == '[' && i + 1 < len && chars[i + 1] == '[' {
            match find_double_delimiter(&chars, i + 2, ']') {
                Some(end) => {
                    add_link(&mut links, &chars, i + 2, end);
                    i = end + 2;
                    continue ;
                },
                None => {},
            }
        }
        i += 1;
    }
    links
}

/// The texts of the blocks of `f` by their uid, after those of `acc`: each
/// block that has a text, before its sub-blocks and those before its later
/// siblings. A uid that occurs again takes the later text.
pub open spec fn texts_of(f: Seq<BlockView>, acc: Seq<(Seq<char>, Seq<char>)>) -> Seq<
    (Seq<char>, Seq<char>),
>
    decreases f,
{
    if f.len() == 0 {
        acc
    } else {
        let own = if f[0].text.len() > 0 {
            crate::maps::put(acc, f[0].uid, f[0].text)
        } else {
            acc
        };
        texts_of(f.skip(1), texts_of(f[0].children, own))
    }
}

/// The texts of the blocks of all pages by their uid, after those of `acc`.
pub open spec fn texts_of_days(days: Seq<DailyNoteView>, acc: Seq<(Seq<char>, Seq<char>)>) -> Seq<
    (Seq<char>, Seq<char>),
>
    decreases days.len(),
{
    if days.len() == 0 {
        acc
    } else {
        texts_of_days(days.skip(1), texts_of(days[0].blocks, acc))
    }
}

/// Adds the texts of `blocks` to `map`, by their uid.
pub fn collect_block_texts(blocks: &Vec<Block>, map: &mut StringMap<String>)
    ensures
        final(map)@ == texts_of(forest_view(blocks@), old(map)@),
    decreases blocks@,
{
    let ghost f = forest_view(blocks@);
    let mut i: usize = 0;
    proof {
        assert(f.skip(0) =~= f);
    }
    while i < blocks.len()
        invariant
            i <= blocks.len(),
            f == forest_view(blocks@),
            f.len() == blocks.len(),
            texts_of(f, old(map)@) == texts_of(f.skip(i as int), map@),
        decreases blocks.len() - i,
    {
        proof {
            crate::blocks::lemma_skip_step(f, i as int);
            crate::blocks::lemma_view_index(blocks@, i as int);
            assert(f[i as int].text == blocks@[i as int].string@);
        }
        if !blocks[i].string.as_str().is_empty() {
            map.insert(blocks[i].uid.clone(), blocks[i].string.clone());
        }
        collect_block_texts(&blocks[i].children, map);
        i += 1;
    }
}

/// The texts of the blocks of `days` by their uid.
pub fn build_block_text_map(days: &Vec<DailyNote>) -> (map: StringMap<String>)
    ensures
        map@ == texts_of_days(days_view(days@), Seq::empty()),
{
    let ghost d = days_view(days@);
    let mut map: StringMap<String> = StringMap::new();
    let mut i: usize = 0;
    proof {
        assert(d.skip(0) =~= d);
    }
    while i < days.len()
        invariant
            i <= days.len(),
            d == days_view(days@),
            texts_of_days(d, Seq::empty()) == texts_of_days(d.skip(i as int), map@),
        decreases days.len() - i,
    {
        proof {
            crate::blocks::lemma_skip_step(d, i as int);
        }
        collect_block_texts(&days[i].blocks, &mut map);
        i += 1;
    }
    map
}

/// How a piece of a line is shown.
#[derive(Debug, Clone, Copy, PartialEq, Eq, Hash, Structural)]
pub enum SpanKind {
    Plain,
    Todo,
    Done,
    Embed,
    Code,
    Bold,
    Italic,
    Highlight,
    Strikethrough,
    PageLink,
    Link,
    BlockRef,
    Tag,
}

/// A piece of a line with the way it is shown: the markup round it is gone.
#[derive(Debug, PartialEq)]
pub struct Segment {
    pub text: String,
    pub kind: SpanKind,
}

/// What a [`Segment`] is, as a mathematical value.
pub struct SegmentView {
    pub text: Seq<char>,
    pub kind: SpanKind,
}

impl View for Segment {
    type V = SegmentView;

    open spec fn view(&self) -> SegmentView {
        SegmentView { text: self.text@, kind: self.kind }
    }
}

/// The views of a list of segments.
pub open spec fn segment_views(s: Seq<Segment>) -> Seq<SegmentView> {
    Seq::new(s.len(), |i: int| s[i]@)
}

/// What an embed refers to.
pub enum RefText {
    BlockUid(String),
    PageName(String),
}

/// What a [`RefText`] is, as a mathematical value.
pub enum RefView {
    BlockUid(Seq<char>),
    PageName(Seq<char>),
}

impl View for RefText {
    type V = RefView;

    open spec fn view(&self) -> RefView {
        match self {
            RefText::BlockUid(u) => RefView::BlockUid(u@),
            RefText::PageName(n) => RefView::PageName(n@),
        }
    }
}

/// `s` without the white space at its start.
pub open spec fn trim_start(s: Seq<char>) -> Seq<char>
    decreases s.len(),
{
    if s.len() > 0 && is_whitespace_char(s[0]) {
        trim_start(s.skip(1))
    } else {
        s
    }
}

/// `s` without the white space at its end.
pub open spec fn trim_end(s: Seq<char>) -> Seq<char>
    decreases s.len(),
{
    if s.len() > 0 && is_whitespace_char(s.last()) {
        trim_end(s.drop_last())
    } else {
        s
    }
}

/// `s` without the white space at its start and at its end.
pub open spec fn trimmed(s: Seq<char>) -> Seq<char> {
    trim_end(trim_start(s))
}

/// What stands between `open` at the start of `s` and `close` at its end,
/// where both are there.
pub open spec fn inside(s: Seq<char>, open: Seq<char>, close: Seq<char>) -> Option<Seq<char>> {
    if begins_with(s, open) && ends_with(s.skip(open.len() as int), close) {
        Some(s.subrange(open.len() as int, s.len() - close.len()))
    } else {
        None
    }
}

/// What follows the word that marks an embed, where `inner` begins with it.
pub open spec fn embed_body(inner: Seq<char>) -> Option<Seq<char>> {
    if begins_with(inner, "[[embed]]:"@) {
        Some(inner.skip("[[embed]]:"@.len() as int))
    } else if begins_with(inner, "embed:"@) {
        Some(inner.skip("embed:"@.len() as int))
    } else {
        None
    }
}

/// What the embed `inner` refers to: a block where its body is `((uid))`,
/// else a page, named in `[[..]]` or plainly.
pub open spec fn embed_ref(inner: Seq<char>) -> Option<RefView> {
    match embed_body(inner) {
        None => None,
        Some(rest) => {
            let t = trimmed(rest);
            Some(
                match inside(t, "(("@, "))"@) {
                    Some(uid) => RefView::BlockUid(uid),
                    None => match inside(t, "[["@, "]]"@) {
                        Some(page) => RefView::PageName(page),
                        None => RefView::PageName(t),
                    },
                },
            )
        },
    }
}

/// The text shown for a reference: the text of the block where `map` has it,
/// else its uid; the name of a page.
pub open spec fn resolved(r: RefView, map: Option<Seq<(Seq<char>, Seq<char>)>>) -> Seq<char> {
    match r {
        RefView::BlockUid(uid) => match map {
            Some(m) => match lookup(m, uid) {
                Some(text) => text,
                None => uid,
            },
            None => uid,
        },
        RefView::PageName(name) => name,
    }
}

/// The span that begins at `i` with a doubled `open` and ends with the next
/// doubled `close`: what stands between, and the place after it.
pub open spec fn delimited(chars: Seq<char>, i: int, open: char, close: char) -> Option<
    (Seq<char>, int),
> {
    if 0 <= i && i + 1 < chars.len() && chars[i] == open && chars[i + 1] == open {
        match first_double(chars, i + 2, close) {
            Some(k) => Some((chars.subrange(i + 2, i + 2 + k), i + 2 + k + 2)),
            None => None,
        }
    } else {
        None
    }
}

/// The link `[text](url)` that begins at `start`: its text, which is not
/// empty, and the place after it.
pub open spec fn md_link(chars: Seq<char>, start: int) -> Option<(Seq<char>, int)> {
    match first_single(chars, start + 1, ']') {
        None => None,
        Some(k) => {
            let close = start + 1 + k;
            if close + 1 >= chars.len() || chars[close + 1] != '(' {
                None
            } else {
                match first_single(chars, close + 2, ')') {
                    None => None,
                    Some(m) => if k == 0 {
                        None
                    } else {
                        Some((chars.subrange(start + 1, close), close + 2 + m + 1))
                    },
                }
            }
        },
    }
}

/// The mark in double braces that begins at `i`: a task to do or done, or
/// an embed.
pub open spec fn brace_token(chars: Seq<char>, i: int, map: Option<Seq<(Seq<char>, Seq<char>)>>) -> Option<
    (SegmentView, int),
> {
    if 0 <= i && i + 1 < chars.len() && chars[i] == '{' && chars[i + 1] == '{' {
        match first_double(chars, i + 2, '}') {
            None => None,
            Some(k) => {
                let inner = chars.subrange(i + 2, i + 2 + k);
                let norm = match inside(inner, "[["@, "]]"@) {
                    Some(x) => x,
                    None => inner,
                };
                let next = i + 2 + k + 2;
                if norm == "TODO"@ {
                    Some((SegmentView { text: "☐ "@, kind: SpanKind::Todo }, next))
                } else if norm == "DONE"@ {
                    Some((SegmentView { text: "✓ "@, kind: SpanKind::Done }, next))
                } else {
                    match embed_ref(inner) {
                        Some(r) => Some(
                            (
                                SegmentView { text: "▸ "@ + resolved(r, map), kind: SpanKind::Embed },
                                next,
                            ),
                        ),
                        None => None,
                    }
                }
            },
        }
    } else {
        None
    }
}

/// The tag that begins at `i` with `#` before a character that is no white
/// space: `#[[..]]` whole, or all up to the next white space.
pub open spec fn tag_token(chars: Seq<char>, i: int) -> Option<(SegmentView, int)> {
    if 0 <= i && i + 1 < chars.len() && chars[i] == '#' && !is_whitespace_char(chars[i + 1]) {
        if i + 2 < chars.len() && chars[i + 1] == '[' && chars[i + 2] == '[' && first_double(
            chars,
            i + 3,
            ']',
        ) is Some {
            let next = i + 3 + first_double(chars, i + 3, ']').unwrap() + 2;
            Some((SegmentView { text: chars.subrange(i, next), kind: SpanKind::Tag }, next))
        } else {
            let next = walk_on(chars, i + 1, false);
            Some((SegmentView { text: chars.subrange(i, next), kind: SpanKind::Tag }, next))
        }
    } else {
        None
    }
}

/// A span with its kind.
pub open spec fn spanned(r: Option<(Seq<char>, int)>, kind: SpanKind) -> Option<(SegmentView, int)> {
    match r {
        Some(p) => Some((SegmentView { text: p.0, kind: kind }, p.1)),
        None => None,
    }
}

/// The first of two that is there.
pub open spec fn or_else(
    a: Option<(SegmentView, int)>,
    b: Option<(SegmentView, int)>,
) -> Option<(SegmentView, int)> {
    if a is Some {
        a
    } else {
        b
    }
}

/// The piece of markup that begins at `i`, and the place after it: in this
/// order a mark in double braces, code in back quotes, `**bold**`,
/// `__italic__`, `^^highlight^^`, `~~strikethrough~~`, a page link `[[..]]`,
/// a link `[text](url)`, a block reference `((..))`, a tag.
pub open spec fn token(chars: Seq<char>, i: int, map: Option<Seq<(Seq<char>, Seq<char>)>>) -> Option<
    (SegmentView, int),
> {
    let code = if 0 <= i < chars.len() && chars[i] == '`' {
        match first_single(chars, i + 1, '`') {
            Some(k) => Some(
                (SegmentView { text: chars.subrange(i + 1, i + 1 + k), kind: SpanKind::Code }, i + 1 + k + 1),
            ),
            None => None,
        }
    } else {
        None
    };
    let link = if 0 <= i < chars.len() && chars[i] == '[' && (i + 1 >= chars.len() || chars[i + 1]
        != '[') {
        spanned(md_link(chars, i), SpanKind::Link)
    } else {
        None
    };
    let block_ref = match delimited(chars, i, '(', ')') {
        Some(p) => Some(
            (SegmentView { text: resolved(RefView::BlockUid(p.0), map), kind: SpanKind::BlockRef }, p.1),
        ),
        None => None,
    };
    or_else(
        brace_token(chars, i, map),
        or_else(
            code,
            or_else(
                spanned(delimited(chars, i, '*', '*'), SpanKind::Bold),
                or_else(
                    spanned(delimited(chars, i, '_', '_'), SpanKind::Italic),
                    or_else(
                        spanned(delimited(chars, i, '^', '^'), SpanKind::Highlight),
                        or_else(
                            spanned(delimited(chars, i, '~', '~'), SpanKind::Strikethrough),
                            or_else(
                                spanned(delimited(chars, i, '[', ']'), SpanKind::PageLink),
                                or_else(link, or_else(block_ref, tag_token(chars, i))),
                            ),
                        ),
                    ),
                ),
            ),
        ),
    )
}

/// A piece of markup lies within the text and is not empty.
pub proof fn lemma_token_bounds(chars: Seq<char>, i: int, map: Option<Seq<(Seq<char>, Seq<char>)>>)
    requires
        0 <= i < chars.len(),
    ensures
        token(chars, i, map) matches Some(t) ==> i < t.1 <= chars.len(),
{
    lemma_first_double(chars, i + 2, '}');
    lemma_first_double(chars, i + 2, '*');
    lemma_first_double(chars, i + 2, '_');
    lemma_first_double(chars, i + 2, '^');
    lemma_first_double(chars, i + 2, '~');
    lemma_first_double(chars, i + 2, ']');
    lemma_first_double(chars, i + 2, ')');
    lemma_first_double(chars, i + 3, ']');
    lemma_first_single(chars, i + 1, '`');
    lemma_first_single(chars, i + 1, ']');
    match first_single(chars, i + 1, ']') {
        Some(k) => {
            lemma_first_single(chars, i + 1 + k + 2, ')');
        },
        None => {},
    }
    if i + 1 < chars.len() {
        crate::edit_buffer::lemma_walk_on_bounds(chars, i + 1, false);
    }
}

/// The plain text gathered so far as a segment, where there is any.
pub open spec fn flushed(plain: Seq<char>) -> Seq<SegmentView> {
    if plain.len() > 0 {
        seq![SegmentView { text: plain, kind: SpanKind::Plain }]
    } else {
        Seq::empty()
    }
}

/// The segments of the text from position `i` on, after the plain text
/// `plain` gathered before it: each piece of markup is a segment of its own,
/// and what lies between is plain.
pub open spec fn scan(
    chars: Seq<char>,
    i: int,
    plain: Seq<char>,
    map: Option<Seq<(Seq<char>, Seq<char>)>>,
) -> Seq<SegmentView>
    decreases chars.len() - i,
{
    if i < 0 || i >= chars.len() {
        flushed(plain)
    } else {
        match token(chars, i, map) {
            Some(t) => {
                proof {
                    lemma_token_bounds(chars, i, map);
                }
                flushed(plain) + seq![t.0] + scan(chars, t.1, Seq::empty(), map)
            },
            None => scan(chars, i + 1, plain.push(chars[i]), map),
        }
    }
}

/// The segments that a line of text is shown as. With `map`, a reference to
/// a block shows the text of the block in place of its uid.
pub open spec fn rendered(text: Seq<char>, map: Option<Seq<(Seq<char>, Seq<char>)>>) -> Seq<
    SegmentView,
> {
    scan(text, 0, Seq::empty(), map)
}

/// Characters of all segments together.
pub open spec fn total_len(segs: Seq<SegmentView>) -> nat
    decreases segs.len(),
{
    if segs.len() == 0 {
        0
    } else {
        total_len(segs.drop_last()) + segs.last().text.len()
    }
}

/// Whether `chars[from..to]` begins with the characters of `lit`.
pub fn range_begins_with(chars: &Vec<char>, from: usize, to: usize, lit: &str) -> (r: bool)
    requires
        from <= to <= chars.len(),
    ensures
        r == begins_with(chars@.subrange(from as int, to as int), lit@),
{
    let pat = to_chars(lit);
    let ghost s = chars@.subrange(from as int, to as int);
    if pat.len() > to - from {
        return false;
    }
    let mut i: usize = 0;
    while i < pat.len()
        invariant
            i <= pat.len() <= to - from,
            from <= to <= chars.len(),
            s == chars@.subrange(from as int, to as int),
            pat@ == lit@,
            forall|j: int| 0 <= j < i ==> s[j] == pat@[j],
        decreases pat.len() - i,
    {
        if chars[from + i] != pat[i] {
            assert(s.subrange(0, pat@.len() as int)[i as int] != pat@[i as int]);
            return false;
        }
        i += 1;
    }
    assert(s.subrange(0, pat@.len() as int) =~= pat@);
    true
}

/// Whether `chars[from..to]` ends with the characters of `lit`.
pub fn range_ends_with(chars: &Vec<char>, from: usize, to: usize, lit: &str) -> (r: bool)
    requires
        from <= to <= chars.len(),
    ensures
        r == ends_with(chars@.subrange(from as int, to as int), lit@),
{
    let pat = to_chars(lit);
    let ghost s = chars@.subrange(from as int, to as int);
    if pat.len() > to - from {
        return false;
    }
    let base = to - pat.len();
    let mut i: usize = 0;
    while i < pat.len()
        invariant
            i <= pat.len() <= to - from,
            from <= to <= chars.len(),
            base == to - pat.len(),
            s == chars@.subrange(from as int, to as int),
            pat@ == lit@,
            forall|j: int| 0 <= j < i ==> s[s.len() - pat@.len() + j] == pat@[j],
        decreases pat.len() - i,
    {
        if chars[base + i] != pat[i] {
            assert(s.subrange(s.len() - pat@.len(), s.len() as int)[i as int] != pat@[i as int]);
            return false;
        }
        i += 1;
    }
    assert(s.subrange(s.len() - pat@.len(), s.len() as int) =~= pat@);
    true
}

/// The part of `chars[from..to]` that is left without the white space at its
/// start and at its end.
pub fn trim_range(chars: &Vec<char>, from: usize, to: usize) -> (r: (usize, usize))
    requires
        from <= to <= chars.len(),
    ensures
        from <= r.0 <= r.1 <= to,
        chars@.subrange(r.0 as int, r.1 as int) == trimmed(chars@.subrange(from as int, to as int)),
{
    let mut a = from;
    while a < to && is_whitespace(chars[a])
        invariant
            from <= a <= to <= chars.len(),
            trim_start(chars@.subrange(from as int, to as int)) == trim_start(
                chars@.subrange(a as int, to as int),
            ),
        decreases to - a,
    {
        proof {
            assert(chars@.subrange(a as int, to as int).skip(1) =~= chars@.subrange(
                a + 1,
                to as int,
            ));
        }
        a += 1;
    }
    let mut b = to;
    while b > a && is_whitespace(chars[b - 1])
        invariant
            a <= b <= to <= chars.len(),
            trim_end(chars@.subrange(a as int, to as int)) == trim_end(
                chars@.subrange(a as int, b as int),
            ),
        decreases b - a,
    {
        proof {
            assert(chars@.subrange(a as int, b as int).drop_last() =~= chars@.subrange(
                a as int,
                b - 1,
            ));
        }
        b -= 1;
    }
    (a, b)
}

/// What stands between `open` and `close` in `chars[from..to]`, where it
/// begins with the one and ends with the other.
pub fn range_inside(chars: &Vec<char>, from: usize, to: usize, open: &str, close: &str) -> (r: Option<
    (usize, usize),
>)
    requires
        from <= to <= chars.len(),
    ensures
        match r {
            Some(p) => from <= p.0 <= p.1 <= to && inside(
                chars@.subrange(from as int, to as int),
                open@,
                close@,
            ) == Some(chars@.subrange(p.0 as int, p.1 as int)),
            None => inside(chars@.subrange(from as int, to as int), open@, close@) is None,
        },
{
    let ghost s = chars@.subrange(from as int, to as int);
    if !range_begins_with(chars, from, to, open) {
        return None;
    }
    let open_len = open.unicode_len();
    let close_len = close.unicode_len();
    proof {
        assert(s.skip(open_len as int) =~= chars@.subrange(from + open_len, to as int));
    }
    if !range_ends_with(chars, from + open_len, to, close) {
        return None;
    }
    proof {
        assert(s.subrange(open_len as int, s.len() - close_len) =~= chars@.subrange(
            from + open_len,
            to - close_len,
        ));
    }
    Some((from + open_len, to - close_len))
}

/// What the embed `chars[from..to]` refers to.
pub fn parse_embed_inner(chars: &Vec<char>, from: usize, to: usize) -> (r: Option<RefText>)
    requires
        from <= to <= chars.len(),
    ensures
        match r {
            Some(t) => embed_ref(chars@.subrange(from as int, to as int)) == Some(t@),
            None => embed_ref(chars@.subrange(from as int, to as int)) is None,
        },
{
    let ghost s = chars@.subrange(from as int, to as int);
    let body_from = if range_begins_with(chars, from, to, "[[embed]]:") {
        from + "[[embed]]:".unicode_len()
    } else if range_begins_with(chars, from, to, "embed:") {
        from + "embed:".unicode_len()
    } else {
        return None;
    };
    proof {
        assert(s.skip(body_from - from) =~= chars@.subrange(body_from as int, to as int));
    }
    let (a, b) = trim_range(chars, body_from, to);
    match range_inside(chars, a, b, "((", "))") {
        Some(p) => Some(RefText::BlockUid(from_chars(chars, p.0, p.1))),
        None => match range_inside(chars, a, b, "[[", "]]") {
            Some(p) => Some(RefText::PageName(from_chars(chars, p.0, p.1))),
            None => Some(RefText::PageName(from_chars(chars, a, b))),
        },
    }
}

/// The uid of the block that the embed `inner` refers to, where it refers to
/// one in the form `((uid))`.
pub open spec fn embed_uid(inner: Seq<char>) -> Option<Seq<char>> {
    match embed_body(inner) {
        None => None,
        Some(rest) => inside(trimmed(rest), "(("@, "))"@),
    }
}

/// The uid of the block that the embed `chars[from..to]` refers to.
pub fn embed_uid_in(chars: &Vec<char>, from: usize, to: usize) -> (r: Option<String>)
    requires
        from <= to <= chars.len(),
    ensures
        match r {
            Some(u) => embed_uid(chars@.subrange(from as int, to as int)) == Some(u@),
            None => embed_uid(chars@.subrange(from as int, to as int)) is None,
        },
{
    let ghost s = chars@.subrange(from as int, to as int);
    let body_from = if range_begins_with(chars, from, to, "[[embed]]:") {
        from + "[[embed]]:".unicode_len()
    } else if range_begins_with(chars, from, to, "embed:") {
        from + "embed:".unicode_len()
    } else {
        return None;
    };
    proof {
        assert(s.skip(body_from - from) =~= chars@.subrange(body_from as int, to as int));
    }
    let (a, b) = trim_range(chars, body_from, to);
    match range_inside(chars, a, b, "((", "))") {
        Some(p) => Some(from_chars(chars, p.0, p.1)),
        None => None,
    }
}

/// The text shown for a reference.
pub fn resolve_ref(ref_text: &RefText, block_map: Option<&StringMap<String>>) -> (r: String)
    ensures
        r@ == resolved(
            ref_text@,
            match block_map {
                Some(m) => Some(m@),
                None => None,
            },
        ),
{
    match ref_text {
        RefText::BlockUid(uid) => {
            match block_map {
                Some(map) => match map.get(uid.as_str()) {
                    Some(text) => {
                        return text.clone();
                    },
                    None => {},
                },
                None => {},
            }
            uid.clone()
        },
        RefText::PageName(name) => name.clone(),
    }
}

/// The link `[text](url)` that begins at `start`: its text and the place
/// after it.
pub fn parse_markdown_link(chars: &Vec<char>, start: usize) -> (r: Option<(String, usize)>)
    requires
        start < chars.len(),
    ensures
        match r {
            Some(p) => md_link(chars@, start as int) == Some((p.0@, p.1 as int)) && start < p.1
                <= chars.len(),
            None => md_link(chars@, start as int) is None,
        },
{
    let close = match find_single_delimiter(chars, start + 1, ']') {
        Some(c) => c,
        None => {
            return None;
        },
    };
    if close + 1 >= chars.len() || chars[close + 1] != '(' {
        return None;
    }
    let end = match find_single_delimiter(chars, close + 2, ')') {
        Some(e) => e,
        None => {
            return None;
        },
    };
    if close == start + 1 {
        return None;
    }
    Some((from_chars(chars, start + 1, close), end + 1))
}

/// The span that begins at `i` with a doubled `open` and ends with the next
/// doubled `close`: the places where what stands between begins and ends.
pub fn find_delimited(chars: &Vec<char>, i: usize, open: char, close: char) -> (r: Option<
    (usize, usize),
>)
    requires
        i < chars.len(),
    ensures
        match r {
            Some(p) => delimited(chars@, i as int, open, close) == Some(
                (chars@.subrange(p.0 as int, p.1 as int), p.1 + 2),
            ) && p.0 == i + 2 && p.0 <= p.1 && p.1 + 1 < chars.len(),
            None => delimited(chars@, i as int, open, close) is None,
        },
{
    if i + 1 < chars.len() && chars[i] == open && chars[i + 1] == open {
        match find_double_delimiter(chars, i + 2, close) {
            Some(end) => Some((i + 2, end)),
            None => None,
        }
    } else {
        None
    }
}

/// The mark in double braces that begins at `i`.
pub fn brace_token_at(chars: &Vec<char>, i: usize, block_map: Option<&StringMap<String>>) -> (r: Option<
    (Segment, usize),
>)
    requires
        i < chars.len(),
    ensures
        match r {
            Some(p) => brace_token(
                chars@,
                i as int,
                match block_map {
                    Some(m) => Some(m@),
                    None => None,
                },
            ) == Some((p.0@, p.1 as int)) && p.1 <= chars.len(),
            None => brace_token(
                chars@,
                i as int,
                match block_map {
                    Some(m) => Some(m@),
                    None => None,
                },
            ) is None,
        },
{
    if !(i + 1 < chars.len() && chars[i] == '{' && chars[i + 1] == '{') {
        return None;
    }
    let end = match find_closing_double_brace(chars, i + 2) {
        Some(e) => e,
        None => {
            return None;
        },
    };
    let (a, b) = match range_inside(chars, i + 2, end, "[[", "]]") {
        Some(p) => p,
        None => (i + 2, end),
    };
    let normalized = from_chars(chars, a, b);
    if crate::text::str_eq(normalized.as_str(), "TODO") {
        return Some((Segment { text: "☐ ".to_owned(), kind: SpanKind::Todo }, end + 2));
    }
    if crate::text::str_eq(normalized.as_str(), "DONE") {
        return Some((Segment { text: "✓ ".to_owned(), kind: SpanKind::Done }, end + 2));
    }
    match parse_embed_inner(chars, i + 2, end) {
        Some(ref_text) => {
            let shown = resolve_ref(&ref_text, block_map);
            let mut text = "▸ ".to_owned();
            push_str(&mut text, shown.as_str());
            Some((Segment { text, kind: SpanKind::Embed }, end + 2))
        },
        None => None,
    }
}

/// The tag that begins at `i`.
pub fn tag_token_at(chars: &Vec<char>, i: usize) -> (r: Option<(Segment, usize)>)
    requires
        i < chars.len(),
    ensures
        match r {
            Some(p) => tag_token(chars@, i as int) == Some((p.0@, p.1 as int)) && i < p.1
                <= chars.len(),
            None => tag_token(chars@, i as int) is None,
        },
{
    let len = chars.len();
    if !(chars[i] == '#' && i + 1 < len && !is_whitespace(chars[i + 1])) {
        return None;
    }
    if i + 2 < len && chars[i + 1] == '[' && chars[i + 2] == '[' {
        match find_double_delimiter(chars, i + 3, ']') {
            Some(end) => {
                return Some(
                    (Segment { text: from_chars(chars, i, end + 2), kind: SpanKind::Tag }, end + 2),
                );
            },
            None => {},
        }
    }
    let mut j = i + 1;
    while j < len && !is_whitespace(chars[j])
        invariant
            len == chars.len(),
            i + 1 <= j <= len,
            walk_on(chars@, i + 1, false) == walk_on(chars@, j as int, false),
        decreases len - j,
    {
        j += 1;
    }
    Some((Segment { text: from_chars(chars, i, j), kind: SpanKind::Tag }, j))
}

/// The piece of markup that begins at `i`, and the place after it.
pub fn token_at(chars: &Vec<char>, i: usize, block_map: Option<&StringMap<String>>) -> (r: Option<
    (Segment, usize),
>)
    requires
        i < chars.len(),
    ensures
        match r {
            Some(p) => token(
                chars@,
                i as int,
                match block_map {
                    Some(m) => Some(m@),
                    None => None,
                },
            ) == Some((p.0@, p.1 as int)) && i < p.1 <= chars.len(),
            None => token(
                chars@,
                i as int,
                match block_map {
                    Some(m) => Some(m@),
                    None => None,
                },
            ) is None,
        },
{
    let len = chars.len();
    let ghost map = match block_map {
        Some(m) => Some(m@),
        None => None,
    };
    proof {
        lemma_token_bounds(chars@, i as int, map);
    }
    let braces = brace_token_at(chars, i, block_map);
    if braces.is_some() {
        return braces;
    }
    if chars[i] == '`' {
        match find_single_delimiter(chars, i + 1, '`') {
            Some(end) => {
                return Some(
                    (Segment { text: from_chars(chars, i + 1, end), kind: SpanKind::Code }, end + 1),
                );
            },
            None => {},
        }
    }
    match find_delimited(chars, i, '*', '*') {
        Some(p) => {
            return Some(
                (Segment { text: from_chars(chars, p.0, p.1), kind: SpanKind::Bold }, p.1 + 2),
            );
        },
        None => {},
    }
    match find_delimited(chars, i, '_', '_') {
        Some(p) => {
            return Some(
                (Segment { text: from_chars(chars, p.0, p.1), kind: SpanKind::Italic }, p.1 + 2),
            );
        },
        None => {},
    }
    match find_delimited(chars, i, '^', '^') {
        Some(p) => {
            return Some(
                (Segment { text: from_chars(chars, p.0, p.1), kind: SpanKind::Highlight }, p.1 + 2),
            );
        },
        None => {},
    }
    match find_delimited(chars, i, '~', '~') {
        Some(p) => {
            return Some(
                (
                    Segment { text: from_chars(chars, p.0, p.1), kind: SpanKind::Strikethrough },
                    p.1 + 2,
                ),
            );
        },
        None => {},
    }
    match find_delimited(chars, i, '[', ']') {
        Some(p) => {
            return Some(
                (Segment { text: from_chars(chars, p.0, p.1), kind: SpanKind::PageLink }, p.1 + 2),
            );
        },
        None => {},
    }
    if chars[i] == '[' && (i + 1 >= len || chars[i + 1] != '[') {
        match parse_markdown_link(chars, i) {
            Some(p) => {
                return Some((Segment { text: p.0, kind: SpanKind::Link }, p.1));
            },
            None => {},
        }
    }
    match find_delimited(chars, i, '(', ')') {
        Some(p) => {
            let uid = from_chars(chars, p.0, p.1);
            let shown = resolve_ref(&RefText::BlockUid(uid), block_map);
            return Some((Segment { text: shown, kind: SpanKind::BlockRef }, p.1 + 2));
        },
        None => {},
    }
    tag_token_at(chars, i)
}

/// Ends the run of plain text: it becomes a segment, where there is any.
pub fn flush_plain(plain: &mut String, spans: &mut Vec<Segment>)
    ensures
        segment_views(final(spans)@) == segment_views(old(spans)@) + flushed(old(plain)@),
        final(plain)@ == Seq::<char>::empty(),
{
    if !plain.as_str().is_empty() {
        let mut text = String::new();
        std::mem::swap(plain, &mut text);
        spans.push(Segment { text, kind: SpanKind::Plain });
        assert(segment_views(spans@) =~= segment_views(old(spans)@) + flushed(old(plain)@));
    } else {
        assert(segment_views(spans@) =~= segment_views(old(spans)@) + flushed(old(plain)@));
        assert(plain@ =~= Seq::<char>::empty());
    }
}

/// The segments that the line `text` is shown as: the markup is taken away,
/// and what it marked is a segment of its kind. With `block_map`, a
/// reference to a block shows the text of the block in place of its uid.
pub fn render_segments(text: &str, block_map: Option<&StringMap<String>>) -> (spans: Vec<Segment>)
    ensures
        segment_views(spans@) == rendered(
            text@,
            match block_map {
                Some(m) => Some(m@),
                None => None,
            },
        ),
{
    let chars = to_chars(text);
    let len = chars.len();
    let ghost map = match block_map {
        Some(m) => Some(m@),
        None => None,
    };
    let mut spans: Vec<Segment> = Vec::new();
    let mut plain = String::new();
    let mut i: usize = 0;
    proof {
        assert(segment_views(spans@) + scan(chars@, 0, plain@, map) =~= scan(
            chars@,
            0,
            Seq::empty(),
            map,
        ));
    }
    while i < len
        invariant
            len == chars.len(),
            i <= len,
            chars@ == text@,
            map == (match block_map {
                Some(m) => Some(m@),
                None => None,
            }),
            rendered(chars@, map) == segment_views(spans@) + scan(chars@, i as int, plain@, map),
        decreases len - i,
    {
        let ghost done = segment_views(spans@);
        let ghost gathered = plain@;
        match token_at(&chars, i, block_map) {
            Some(p) => {
                flush_plain(&mut plain, &mut spans);
                let ghost mid = spans@;
                spans.push(p.0);
                proof {
                    assert(segment_views(spans@) =~= segment_views(mid).push(p.0@));
                    assert(segment_views(spans@) + scan(chars@, p.1 as int, Seq::empty(), map)
                        =~= done + (flushed(gathered) + seq![p.0@] + scan(
                        chars@,
                        p.1 as int,
                        Seq::empty(),
                        map,
                    )));
                }
                i = p.1;
            },
            None => {
                push_char(&mut plain, chars[i]);
                i += 1;
            },
        }
    }
    flush_plain(&mut plain, &mut spans);
    spans
}

/// Characters that the line `text` shows once its markup is taken away; no
/// more than `usize::MAX` is reported.
pub fn rendered_char_count(text: &str) -> (n: usize)
    ensures
        n == (if total_len(rendered(text@, None)) <= usize::MAX {
            total_len(rendered(text@, None))
        } else {
            usize::MAX as nat
        }),
{
    let spans = render_segments(text, None);
    let ghost views = segment_views(spans@);
    let mut n: usize = 0;
    let mut i: usize = 0;
    proof {
        assert(views.take(0) =~= Seq::<SegmentView>::empty());
    }
    while i < spans.len()
        invariant
            i <= spans.len(),
            views == segment_views(spans@),
            n == (if total_len(views.take(i as int)) <= usize::MAX {
                total_len(views.take(i as int))
            } else {
                usize::MAX as nat
            }),
        decreases spans.len() - i,
    {
        proof {
            assert(views.take(i + 1).drop_last() =~= views.take(i as int));
            assert(views.take(i + 1).last() == spans@[i as int]@);
        }
        let k = spans[i].text.as_str().unicode_len();
        n = n.saturating_add(k);
        i += 1;
    }
    proof {
        assert(views.take(views.len() as int) =~= views);
    }
    n
}

} // verus!

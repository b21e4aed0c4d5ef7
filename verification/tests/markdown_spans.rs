#![allow(unused_imports, dead_code, unused_mut)]
use ratatui::style::{Color, Modifier, Style};
use ratatui::text::Span;
use roam_tui::maps::StringMap;
use roam_tui::markdown::{render_segments, SpanKind};

fn default_style() -> Style {
    Style::default().fg(Color::White)
}

// How each kind of piece is drawn on the terminal.
fn style_for(kind: SpanKind, base_style: Style) -> Style {
    match kind {
        SpanKind::Plain => base_style,
        SpanKind::Todo => base_style.fg(Color::Red),
        SpanKind::Done => base_style.fg(Color::Green),
        SpanKind::Embed => base_style.fg(Color::Magenta).add_modifier(Modifier::ITALIC),
        SpanKind::Code => base_style.fg(Color::Green).bg(Color::DarkGray),
        SpanKind::Bold => base_style.fg(Color::White).add_modifier(Modifier::BOLD),
        SpanKind::Italic => base_style.add_modifier(Modifier::ITALIC),
        SpanKind::Highlight => base_style.bg(Color::Yellow),
        SpanKind::Strikethrough => base_style.fg(Color::DarkGray).add_modifier(Modifier::CROSSED_OUT),
        SpanKind::PageLink => base_style.fg(Color::Cyan),
        SpanKind::Link => base_style.fg(Color::Cyan).add_modifier(Modifier::UNDERLINED),
        SpanKind::BlockRef => base_style.fg(Color::Magenta),
        SpanKind::Tag => base_style.fg(Color::Cyan),
    }
}

fn render_spans_with_refs(
    text: &str,
    base_style: Style,
    block_map: Option<&StringMap<String>>,
) -> Vec<Span<'static>> {
    render_segments(text, block_map)
        .into_iter()
        .map(|segment| Span::styled(segment.text, style_for(segment.kind, base_style)))
        .collect()
}

fn render_spans(text: &str, base_style: Style) -> Vec<Span<'static>> {
    render_spans_with_refs(text, base_style, None)
}

#[test]
fn plain_text_single_span() {
    let spans = render_spans("hello world", default_style());
    assert_eq!(spans.len(), 1);
    assert_eq!(spans[0].content, "hello world");
}

#[test]
fn bold_renders_bold() {
    let spans = render_spans("**word**", default_style());
    assert_eq!(spans.len(), 1);
    assert_eq!(spans[0].content, "word");
    assert!(spans[0].style.add_modifier.contains(Modifier::BOLD));
}

#[test]
fn italic_renders_italic() {
    let spans = render_spans("__word__", default_style());
    assert_eq!(spans.len(), 1);
    assert_eq!(spans[0].content, "word");
    assert!(spans[0].style.add_modifier.contains(Modifier::ITALIC));
}

#[test]
fn page_link_cyan_no_delimiters() {
    let spans = render_spans("[[page]]", default_style());
    assert_eq!(spans.len(), 1);
    assert_eq!(spans[0].content, "page");
    assert_eq!(spans[0].style.fg, Some(Color::Cyan));
}

#[test]
fn block_ref_magenta() {
    let spans = render_spans("((uid123))", default_style());
    assert_eq!(spans.len(), 1);
    assert_eq!(spans[0].content, "uid123");
    assert_eq!(spans[0].style.fg, Some(Color::Magenta));
}

#[test]
fn tag_cyan() {
    let spans = render_spans("#tag", default_style());
    assert_eq!(spans.len(), 1);
    assert_eq!(spans[0].content, "#tag");
    assert_eq!(spans[0].style.fg, Some(Color::Cyan));
}

#[test]
fn inline_code_green() {
    let spans = render_spans("`code`", default_style());
    assert_eq!(spans.len(), 1);
    assert_eq!(spans[0].content, "code");
    assert_eq!(spans[0].style.fg, Some(Color::Green));
    assert_eq!(spans[0].style.bg, Some(Color::DarkGray));
}

#[test]
fn highlight_yellow_bg() {
    let spans = render_spans("^^text^^", default_style());
    assert_eq!(spans.len(), 1);
    assert_eq!(spans[0].content, "text");
    assert_eq!(spans[0].style.bg, Some(Color::Yellow));
}

#[test]
fn strikethrough_gray() {
    let spans = render_spans("~~text~~", default_style());
    assert_eq!(spans.len(), 1);
    assert_eq!(spans[0].content, "text");
    assert_eq!(spans[0].style.fg, Some(Color::DarkGray));
    assert!(spans[0].style.add_modifier.contains(Modifier::CROSSED_OUT));
}

#[test]
fn todo_checkbox() {
    let spans = render_spans("{{TODO}}", default_style());
    assert_eq!(spans.len(), 1);
    assert_eq!(spans[0].content, "☐ ");
    assert_eq!(spans[0].style.fg, Some(Color::Red));
}

#[test]
fn done_checkmark() {
    let spans = render_spans("{{DONE}}", default_style());
    assert_eq!(spans.len(), 1);
    assert_eq!(spans[0].content, "✓ ");
    assert_eq!(spans[0].style.fg, Some(Color::Green));
}

#[test]
fn roam_todo_with_brackets() {
    let spans = render_spans("{{[[TODO]]}}", default_style());
    assert_eq!(spans.len(), 1);
    assert_eq!(spans[0].content, "☐ ");
    assert_eq!(spans[0].style.fg, Some(Color::Red));
}

#[test]
fn roam_done_with_brackets() {
    let spans = render_spans("{{[[DONE]]}}", default_style());
    assert_eq!(spans.len(), 1);
    assert_eq!(spans[0].content, "✓ ");
    assert_eq!(spans[0].style.fg, Some(Color::Green));
}

#[test]
fn roam_todo_brackets_before_text() {
    let spans = render_spans("{{[[TODO]]}} buy milk", default_style());
    assert_eq!(spans.len(), 2);
    assert_eq!(spans[0].content, "☐ ");
    assert_eq!(spans[0].style.fg, Some(Color::Red));
    assert_eq!(spans[1].content, " buy milk");
}

#[test]
fn mixed_formatting() {
    let spans = render_spans("**bold** and [[link]]", default_style());
    assert_eq!(spans.len(), 3);
    assert_eq!(spans[0].content, "bold");
    assert!(spans[0].style.add_modifier.contains(Modifier::BOLD));
    assert_eq!(spans[1].content, " and ");
    assert_eq!(spans[2].content, "link");
    assert_eq!(spans[2].style.fg, Some(Color::Cyan));
}

#[test]
fn unclosed_delimiter_raw() {
    let spans = render_spans("**unclosed", default_style());
    assert_eq!(spans.len(), 1);
    assert_eq!(spans[0].content, "**unclosed");
}

#[test]
fn empty_string_empty_vec() {
    let spans = render_spans("", default_style());
    assert!(spans.is_empty());
}

#[test]
fn tag_with_following_text() {
    let spans = render_spans("#tag rest", default_style());
    assert_eq!(spans.len(), 2);
    assert_eq!(spans[0].content, "#tag");
    assert_eq!(spans[0].style.fg, Some(Color::Cyan));
    assert_eq!(spans[1].content, " rest");
}

#[test]
fn todo_before_text() {
    let spans = render_spans("{{TODO}} buy milk", default_style());
    assert_eq!(spans.len(), 2);
    assert_eq!(spans[0].content, "☐ ");
    assert_eq!(spans[1].content, " buy milk");
}

#[test]
fn preserves_base_style_bg_on_bold() {
    let base = Style::default().fg(Color::White).bg(Color::DarkGray);
    let spans = render_spans("**bold**", base);
    assert_eq!(spans[0].style.bg, Some(Color::DarkGray));
    assert!(spans[0].style.add_modifier.contains(Modifier::BOLD));
}

#[test]
fn block_ref_resolves_with_map() {
    let mut map = StringMap::new();
    map.insert("uid123".to_string(), "Referenced text".to_string());
    let spans = render_spans_with_refs("((uid123))", default_style(), Some(&map));
    assert_eq!(spans.len(), 1);
    assert_eq!(spans[0].content, "Referenced text");
    assert_eq!(spans[0].style.fg, Some(Color::Magenta));
}

#[test]
fn block_ref_shows_uid_without_map() {
    let spans = render_spans_with_refs("((uid123))", default_style(), None);
    assert_eq!(spans.len(), 1);
    assert_eq!(spans[0].content, "uid123");
    assert_eq!(spans[0].style.fg, Some(Color::Magenta));
}

#[test]
fn block_ref_shows_uid_when_not_in_map() {
    let map = StringMap::new();
    let spans = render_spans_with_refs("((unknown))", default_style(), Some(&map));
    assert_eq!(spans.len(), 1);
    assert_eq!(spans[0].content, "unknown");
}

#[test]
fn block_ref_with_surrounding_text() {
    let mut map = StringMap::new();
    map.insert("abc".to_string(), "hello world".to_string());
    let spans = render_spans_with_refs("see ((abc)) here", default_style(), Some(&map));
    assert_eq!(spans.len(), 3);
    assert_eq!(spans[0].content, "see ");
    assert_eq!(spans[1].content, "hello world");
    assert_eq!(spans[1].style.fg, Some(Color::Magenta));
    assert_eq!(spans[2].content, " here");
}

#[test]
fn embed_block_uid_renders_with_indicator() {
    let mut map = StringMap::new();
    map.insert("ref1".to_string(), "Embedded content".to_string());
    let spans = render_spans_with_refs("{{embed: ((ref1))}}", default_style(), Some(&map));
    assert_eq!(spans.len(), 1);
    assert_eq!(spans[0].content, "▸ Embedded content");
    assert_eq!(spans[0].style.fg, Some(Color::Magenta));
    assert!(spans[0].style.add_modifier.contains(Modifier::ITALIC));
}

#[test]
fn embed_with_brackets_syntax() {
    let mut map = StringMap::new();
    map.insert("ref1".to_string(), "Embedded content".to_string());
    let spans = render_spans_with_refs("{{[[embed]]: ((ref1))}}", default_style(), Some(&map));
    assert_eq!(spans.len(), 1);
    assert_eq!(spans[0].content, "▸ Embedded content");
}

#[test]
fn embed_page_renders_page_name() {
    let spans = render_spans_with_refs("{{embed: [[my page]]}}", default_style(), None);
    assert_eq!(spans.len(), 1);
    assert_eq!(spans[0].content, "▸ my page");
}

#[test]
fn embed_unresolved_shows_uid() {
    let spans = render_spans_with_refs("{{embed: ((xyz))}}", default_style(), None);
    assert_eq!(spans.len(), 1);
    assert_eq!(spans[0].content, "▸ xyz");
}

#[test]
fn embed_plain_name() {
    let spans = render_spans_with_refs("{{embed: fin-questions}}", default_style(), None);
    assert_eq!(spans.len(), 1);
    assert_eq!(spans[0].content, "▸ fin-questions");
}

#[test]
fn markdown_link_renders_text_only() {
    let spans = render_spans("[Click here](https://example.com)", default_style());
    assert_eq!(spans.len(), 1);
    assert_eq!(spans[0].content, "Click here");
    assert_eq!(spans[0].style.fg, Some(Color::Cyan));
    assert!(spans[0].style.add_modifier.contains(Modifier::UNDERLINED));
}

#[test]
fn markdown_link_with_surrounding_text() {
    let spans = render_spans("see [link](http://x.com) here", default_style());
    assert_eq!(spans.len(), 3);
    assert_eq!(spans[0].content, "see ");
    assert_eq!(spans[1].content, "link");
    assert_eq!(spans[1].style.fg, Some(Color::Cyan));
    assert_eq!(spans[2].content, " here");
}

#[test]
fn markdown_link_does_not_conflict_with_page_link() {
    let spans = render_spans("[[page]] and [link](url)", default_style());
    assert_eq!(spans.len(), 3);
    assert_eq!(spans[0].content, "page");
    assert_eq!(spans[0].style.fg, Some(Color::Cyan));
    assert_eq!(spans[1].content, " and ");
    assert_eq!(spans[2].content, "link");
    assert!(spans[2].style.add_modifier.contains(Modifier::UNDERLINED));
}

#[test]
fn unclosed_markdown_link_shows_raw() {
    let spans = render_spans("[broken link", default_style());
    assert_eq!(spans.len(), 1);
    assert_eq!(spans[0].content, "[broken link");
}

#[test]
fn markdown_link_missing_parens_shows_raw() {
    let spans = render_spans("[text] no url", default_style());
    assert_eq!(spans.len(), 1);
    assert_eq!(spans[0].content, "[text] no url");
}

#[test]
fn render_spans_backward_compat_block_ref() {
    let spans = render_spans("((uid123))", default_style());
    assert_eq!(spans.len(), 1);
    assert_eq!(spans[0].content, "uid123");
    assert_eq!(spans[0].style.fg, Some(Color::Magenta));
}

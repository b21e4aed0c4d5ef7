#![allow(unused_imports, dead_code, unused_mut)]
use roam_tui::actions::{generate_uid, handle_action};
use roam_tui::config::{AppConfig, GraphConfig, KeybindingsConfig, UiConfig};
use roam_tui::date::{format_roam_daily_title, Date};
use roam_tui::dispatch::{handle_key, handle_normal_key, Effect};
use roam_tui::edit_buffer::EditBuffer;
use roam_tui::error::{ErrorInfo, ErrorPopup};
use roam_tui::input::{handle_insert_key_at, handle_search_key};
use roam_tui::json::{extract_json_message, parse_block_from_json, parse_linked_refs};
use roam_tui::keymap::{
    format_key_event, parse_key, parse_key_code, vim_preset, KeyError, KeybindingMap,
};
use roam_tui::keys::{KeyCode, KeyEvent, KeyModifiers};
use roam_tui::maps::{StringMap, StringSet};
use roam_tui::markdown::{rendered_char_count, render_segments, SpanKind};
use roam_tui::nav::{navigate_to_page, push_nav_snapshot};
use roam_tui::preset::Action;
use roam_tui::queries::{daily_note_uid_for_date, linked_refs_query};
use roam_tui::reconcile::{
    handle_block_ref_resolved, handle_linked_refs_loaded, on_tick, place_daily_note, place_page,
    route_key, KeyRoute,
};
use roam_tui::render::{
    build_visible_lines, cursor_line_col, is_blockquote, is_code_block, is_markdown_lang,
    parse_code_block, scroll_offset, truncate, wrap_breaks, wrap_text, OutlineRow,
};
use roam_tui::search::{filter_blocks, filter_page_titles};
use roam_tui::slash::{execute_at, filter, DateOffset, SlashAction};
use roam_tui::state::{AppState, InputMode, LoadRequest, SearchState, ViewMode};
use roam_tui::tasks::{extract_embed_uid, extract_uids_from_text};
use roam_tui::types::{Block, DailyNote, WriteAction};

fn day() -> Date {
    Date { year: 2026, month: 2, day: 21 }
}

fn block(uid: &str, text: &str, order: i64, children: Vec<Block>) -> Block {
    Block {
        uid: uid.into(),
        string: text.into(),
        order,
        children,
        open: true,
        refs: vec![],
    }
}

fn page(uid: &str, title: &str, date: Date, blocks: Vec<Block>) -> DailyNote {
    DailyNote { date, uid: uid.into(), title: title.into(), blocks }
}

fn state_with(days: Vec<DailyNote>) -> AppState {
    let mut state = AppState::starting_on("graph", vec![], day(), "Feb 21, 2026".into());
    state.loading = false;
    state.status_message = None;
    state.days = days;
    state
}

fn plain(code: KeyCode) -> KeyEvent {
    KeyEvent::new(code, KeyModifiers::none())
}

fn pieces(text: &str) -> Vec<(String, SpanKind)> {
    render_segments(text, None).into_iter().map(|s| (s.text, s.kind)).collect()
}

#[test]
fn daily_titles_are_written_out() {
    assert_eq!(format_roam_daily_title(day()), "February 21st, 2026");
    assert_eq!(format_roam_daily_title(Date { year: 2025, month: 12, day: 2 }), "December 2nd, 2025");
    assert_eq!(format_roam_daily_title(Date { year: 2024, month: 3, day: 23 }), "March 23rd, 2024");
    assert_eq!(format_roam_daily_title(Date { year: 1999, month: 7, day: 11 }), "July 11th, 1999");
    assert_eq!(format_roam_daily_title(Date { year: -5, month: 1, day: 31 }), "January 31st, -5");
    assert_eq!(format_roam_daily_title(Date { year: 2020, month: 13, day: 4 }), " 4th, 2020");
}

#[test]
fn daily_uids_pad_to_two_digits() {
    assert_eq!(daily_note_uid_for_date(1, 5, 2026), "01-05-2026");
    assert_eq!(daily_note_uid_for_date(10, 31, 987), "10-31-987");
    assert_eq!(daily_note_uid_for_date(123, 0, -4), "123-00--4");
}

#[test]
fn linked_refs_query_is_exact() {
    assert_eq!(
        linked_refs_query("a\"b"),
        "[:find ?uid ?s ?page-title :where [?target :node/title \"a\\\"b\"] [?b :block/refs ?target] [?b :block/uid ?uid] [?b :block/string ?s] [?b :block/page ?p] [?p :node/title ?page-title]]"
    );
}

#[test]
fn generated_uids_are_marked() {
    let uid = generate_uid();
    assert!(uid.starts_with("tui-"));
    assert!(uid.len() > 4);
}

#[test]
fn starting_state_shows_today() {
    let state = AppState::new("graph", vec![]);
    assert_eq!(state.graph_name, "graph");
    assert!(state.loading);
    assert!(!state.date_display.is_empty());
    assert!(state.date_display.contains(&state.current_date.year.to_string()));
    assert_eq!(state.status_message.as_deref(), Some("Loading today's notes..."));
}

#[test]
fn string_map_keeps_one_value_for_each_key() {
    let mut map: StringMap<String> = StringMap::new();
    assert!(map.is_empty());
    assert!(map.get("a").is_none());
    map.insert("a".into(), "1".into());
    map.insert("b".into(), "2".into());
    map.insert("a".into(), "3".into());
    assert_eq!(map.len(), 2);
    assert_eq!(map.get("a").unwrap(), "3");
    assert_eq!(map.get("b").unwrap(), "2");
    assert!(map.contains_key("b"));
    assert!(!map.contains_key("c"));
    assert_eq!(map.position("b"), Some(1));
    map.clear();
    assert_eq!(map.len(), 0);
}

#[test]
fn string_set_holds_each_text_once() {
    let mut set = StringSet::new();
    assert!(set.insert("x".into()));
    assert!(!set.insert("x".into()));
    assert!(set.insert("y".into()));
    assert_eq!(set.len(), 2);
    assert!(set.contains("x"));
    assert!(set.remove("x"));
    assert!(!set.remove("x"));
    assert!(!set.contains("x"));
    assert!(set.contains("y"));
    assert!(!set.is_empty());
}

#[test]
fn search_takes_upper_and_lower_case_as_the_same() {
    let days = vec![page("p", "P", day(), vec![block("b1", "Hello World", 0, vec![block("b2", "other", 0, vec![])])])];
    let mut cache: StringMap<String> = StringMap::new();
    cache.insert("far".into(), "HELLO from afar".into());
    cache.insert("b1".into(), "Hello World".into());
    cache.insert("none".into(), "".into());
    let found = filter_blocks(&days, &cache, "hELLo", 10);
    assert_eq!(
        found,
        vec![("b1".to_string(), "Hello World".to_string()), ("far".to_string(), "HELLO from afar".to_string())]
    );
    assert_eq!(filter_blocks(&days, &cache, "", 2).len(), 2);
    assert_eq!(filter_blocks(&days, &cache, "", 10).len(), 3);
    assert!(filter_blocks(&days, &cache, "hello", 0).is_empty());
}

#[test]
fn page_titles_that_begin_with_the_query_come_first() {
    let titles = vec![
        ("A Rust book".to_string(), "1".to_string()),
        ("rustacean".to_string(), "2".to_string()),
        ("Go".to_string(), "3".to_string()),
        ("RUST".to_string(), "4".to_string()),
    ];
    let found: Vec<String> = filter_page_titles(&titles, "Rust", 10).into_iter().map(|t| t.1).collect();
    assert_eq!(found, vec!["2", "4", "1"]);
    let found: Vec<String> = filter_page_titles(&titles, "Rust", 2).into_iter().map(|t| t.1).collect();
    assert_eq!(found, vec!["2", "1"]);
    assert_eq!(filter_page_titles(&titles, "", 3).len(), 3);
    assert_eq!(filter_page_titles(&titles, "", 3)[0].1, "1");
}

#[test]
fn action_names_do_not_depend_on_case() {
    assert_eq!(Action::from_str("QUIT"), Some(Action::Quit));
    assert_eq!(Action::from_str("Move_Up"), Some(Action::MoveUp));
    assert_eq!(Action::from_name("QUIT"), None);
    assert_eq!(Action::from_str("nav_back"), Some(Action::NavBack));
    assert_eq!(Action::from_str(""), None);
    assert_eq!(Action::NavForward.hint_text(), "forward");
}

#[test]
fn word_moves_stop_at_white_space() {
    let mut buf = EditBuffer::new("one\u{00A0}two\tthree");
    buf.move_word_left();
    assert_eq!(buf.cursor, 8);
    buf.move_word_left();
    assert_eq!(buf.cursor, 4);
    buf.move_home();
    buf.move_word_right();
    assert_eq!(buf.cursor, 4);
}

#[test]
fn lines_of_the_buffer_keep_the_column() {
    let mut buf = EditBuffer::new("abcdef\nxy\nlonger line");
    buf.cursor = 5;
    buf.move_down();
    assert_eq!(buf.cursor, 9);
    buf.move_down();
    assert_eq!(buf.cursor, 12);
    buf.move_up();
    assert_eq!(buf.cursor, 9);
    buf.move_up();
    assert_eq!(buf.cursor, 2);
    buf.move_up();
    assert_eq!(buf.cursor, 0);
}

#[test]
fn replace_range_puts_the_cursor_after_the_new_text() {
    let mut buf = EditBuffer::new("hello world");
    buf.replace_range(6, 11, "there!");
    assert_eq!(buf.to_string(), "hello there!");
    assert_eq!(buf.cursor, 12);
}

#[test]
fn slash_commands_for_days_use_the_day_given() {
    let mut buf = EditBuffer::new("/yesterday");
    execute_at(&SlashAction::InsertDate(DateOffset::Yesterday), &mut buf, 0, 9, Date { year: 2024, month: 3, day: 1 }, "10:00");
    assert_eq!(buf.to_string(), "[[February 29th, 2024]]");
    let mut buf = EditBuffer::new("/tomorrow");
    execute_at(&SlashAction::InsertDate(DateOffset::Tomorrow), &mut buf, 0, 8, Date { year: 2025, month: 12, day: 31 }, "10:00");
    assert_eq!(buf.to_string(), "[[January 1st, 2026]]");
    let mut buf = EditBuffer::new("/date");
    execute_at(&SlashAction::InsertDate(DateOffset::Today), &mut buf, 0, 4, Date { year: 2023, month: 2, day: 28 }, "10:00");
    assert_eq!(buf.to_string(), "[[February 28th, 2023]]");
    let mut buf = EditBuffer::new("at /time");
    execute_at(&SlashAction::InsertTime, &mut buf, 3, 4, day(), "10:45");
    assert_eq!(buf.to_string(), "at 10:45");
    assert_eq!(buf.cursor, 8);
}

#[test]
fn slash_prefix_replaces_a_task_mark() {
    let mut buf = EditBuffer::new("{{[[TODO]]}} buy milk /done");
    execute_at(&SlashAction::PrependText("{{[[DONE]]}} "), &mut buf, 22, 4, day(), "");
    assert_eq!(buf.to_string(), "{{[[DONE]]}} buy milk ");
    assert_eq!(buf.cursor, 22);
    let mut buf = EditBuffer::new("x /code");
    execute_at(&SlashAction::InsertCodeBlock, &mut buf, 2, 4, day(), "");
    assert_eq!(buf.to_string(), "x ```\n\n```");
    assert_eq!(buf.cursor, 6);
}

#[test]
fn slash_filter_ignores_case() {
    let names: Vec<&str> = filter("DA").iter().map(|c| c.name).collect();
    assert_eq!(names, vec!["date", "yesterday"]);
}

#[test]
fn error_popup_for_each_kind() {
    let p = ErrorPopup::from_api(418, "{\"message\": 5}");
    assert_eq!(p.title, "API Error (418)");
    assert_eq!(p.message, "{\"message\": 5}");
    let long = "x".repeat(250);
    let p = ErrorPopup::from_api(503, &long);
    assert_eq!(p.message.chars().count(), 203);
    assert!(p.message.ends_with("..."));
    let p = ErrorPopup::from_error_info(&ErrorInfo::Write("w".repeat(80)));
    assert_eq!(p.message, "w".repeat(80));
    let p = ErrorPopup::from_error_info(&ErrorInfo::Network("n".repeat(81)));
    assert_eq!(p.message, format!("{}...", "n".repeat(80)));
}

#[test]
fn json_message_needs_a_text() {
    assert_eq!(extract_json_message("{\"message\":\"hi\"}"), Some("hi".to_string()));
    assert_eq!(extract_json_message("{\"message\":5}"), None);
    assert_eq!(extract_json_message("[\"message\"]"), None);
    assert_eq!(extract_json_message("{\"other\":\"hi\"}"), None);
    assert_eq!(extract_json_message("not json"), None);
}

#[test]
fn blocks_from_json_take_defaults_and_order() {
    let v: serde_json::Value = serde_json::from_str(
        r#"{":block/uid": "p", ":block/string": "parent", ":block/order": 3, ":block/open": false,
            ":block/children": [
              {":block/uid": "c2", ":block/order": 1},
              {":block/uid": "c1", ":block/string": "first", ":block/order": 0},
              {":block/uid": "c3", ":block/order": 1, ":block/string": 7},
              {":block/uid": "c0", ":block/order": "x"}
            ]}"#,
    )
    .unwrap();
    let b = parse_block_from_json(&v);
    assert_eq!((b.uid.as_str(), b.string.as_str(), b.order, b.open), ("p", "parent", 3, false));
    let kids: Vec<(&str, &str, i64, bool)> =
        b.children.iter().map(|c| (c.uid.as_str(), c.string.as_str(), c.order, c.open)).collect();
    assert_eq!(
        kids,
        vec![("c1", "first", 0, true), ("c0", "", 0, true), ("c2", "", 1, true), ("c3", "", 1, true)]
    );
    let empty = parse_block_from_json(&serde_json::Value::Null);
    assert_eq!((empty.uid.as_str(), empty.order, empty.open, empty.children.len()), ("", 0, true, 0));
}

#[test]
fn linked_refs_are_grouped_by_page() {
    let v: serde_json::Value = serde_json::from_str(
        r#"[["u1", "one", "Page A"], ["u2", "two", "Page B"], ["u3", "three", "Page A"],
            ["u4", "self", "Here"], ["u5", 5, "Page C"], ["short"], "no row"]"#,
    )
    .unwrap();
    let groups = parse_linked_refs(&v, "Here");
    let shape: Vec<(&str, Vec<&str>)> = groups
        .iter()
        .map(|g| (g.page_title.as_str(), g.blocks.iter().map(|b| b.uid.as_str()).collect()))
        .collect();
    assert_eq!(shape, vec![("Page A", vec!["u1", "u3"]), ("Page B", vec!["u2"])]);
    assert!(parse_linked_refs(&serde_json::Value::Null, "Here").is_empty());
}

#[test]
fn keys_are_written_and_read() {
    let key = parse_key(" ctrl + Shift+F5 ").unwrap();
    assert_eq!(key.code, KeyCode::F(5));
    assert_eq!(key.modifiers, KeyModifiers::control().union(KeyModifiers::shift()));
    assert_eq!(format_key_event(&key), "Ctrl+Shift+F5");
    assert_eq!(format_key_event(&KeyEvent::new(KeyCode::Insert, KeyModifiers::alt())), "Alt+?");
    assert_eq!(parse_key("f").unwrap().code, KeyCode::Char('f'));
    assert_eq!(parse_key("F+12").unwrap_err(), KeyError::UnknownModifier { modifier: "F".into(), key: "F+12".into() });
    assert_eq!(parse_key("Q").unwrap().code, KeyCode::Char('q'));
    assert_eq!(parse_key_code("PgDn").unwrap(), KeyCode::PageDown);
}

#[test]
fn each_key_error_has_its_message() {
    let e = parse_key("Hyper+x").unwrap_err();
    assert_eq!(e, KeyError::UnknownModifier { modifier: "Hyper".into(), key: "Hyper+x".into() });
    assert_eq!(e.message(), "Unknown modifier 'Hyper' in key 'Hyper+x'");
    let e = parse_key("Ctrl+Shift").unwrap_err();
    assert_eq!(e, KeyError::NoKeyCode { key: "Ctrl+Shift".into() });
    assert_eq!(e.message(), "No key code found in 'Ctrl+Shift'");
    let e = parse_key("Fx").unwrap_err();
    assert_eq!(e, KeyError::InvalidFunctionKey { key: "fx".into() });
    assert_eq!(e.message(), "Invalid function key: fx");
    let e = parse_key("F13").unwrap_err();
    assert_eq!(e, KeyError::FunctionKeyOutOfRange { number: 13 });
    assert_eq!(e.message(), "Function key out of range: F13");
    assert_eq!(parse_key("F0").unwrap_err(), KeyError::FunctionKeyOutOfRange { number: 0 });
    assert_eq!(parse_key("F256").unwrap_err(), KeyError::InvalidFunctionKey { key: "f256".into() });
    assert_eq!(parse_key("F+7").unwrap_err(), KeyError::UnknownModifier { modifier: "F".into(), key: "F+7".into() });
    let e = parse_key("").unwrap_err();
    assert_eq!(e, KeyError::UnknownKey { key: "".into() });
    assert_eq!(e.message(), "Unknown key: ");
    let e = KeybindingMap::from_preset("nano", &StringMap::new()).unwrap_err();
    assert_eq!(e, KeyError::UnknownPreset { name: "nano".into() });
    assert_eq!(e.message(), "Unknown keybinding preset: nano");
    let mut overrides: StringMap<String> = StringMap::new();
    overrides.insert("fly".into(), "x".into());
    let e = KeybindingMap::from_preset("VIM", &overrides).unwrap_err();
    assert_eq!(e, KeyError::UnknownAction { name: "fly".into() });
    assert_eq!(e.message(), "Unknown action: fly");
}

#[test]
fn an_override_is_the_only_key_of_its_action() {
    let mut overrides: StringMap<String> = StringMap::new();
    overrides.insert("Move_Up".into(), "Alt+u".into());
    let map = KeybindingMap::from_preset("vim", &overrides).unwrap();
    assert_eq!(map.resolve(&plain(KeyCode::Char('k'))), None);
    assert_eq!(map.resolve(&plain(KeyCode::Up)), None);
    assert_eq!(map.resolve(&KeyEvent::new(KeyCode::Char('u'), KeyModifiers::alt())), Some(&Action::MoveUp));
    assert_eq!(map.bindings.len(), vim_preset().bindings.len() - 1);
    let hints = vim_preset().hints();
    let shown: Vec<(&str, &str)> = hints.iter().map(|h| (h.0.as_str(), h.1)).collect();
    assert_eq!(shown, vec![("q", "quit"), ("/", "search"), ("?", "help"), ("k", "up"), ("j", "down")]);
}

#[test]
fn config_is_checked() {
    let mut config = AppConfig::defaults();
    assert_eq!(config.ui.theme, "dark");
    assert_eq!(config.ui.sidebar_width_percent, 35);
    assert_eq!(config.keybindings.preset, "vim");
    assert_eq!(config.validate().unwrap_err().message, "graph.name is required");
    config.graph.name = "g".into();
    assert_eq!(
        config.validate().unwrap_err().message,
        "graph.api_token is required (set in config or ROAM_API_TOKEN env var)"
    );
    config.graph.api_token = "t".into();
    assert!(config.validate().is_ok());
}

#[test]
fn markup_becomes_segments() {
    assert_eq!(pieces(""), vec![]);
    assert_eq!(
        pieces("a **b** __c__ ^^d^^ ~~e~~ `f`"),
        vec![
            ("a ".to_string(), SpanKind::Plain),
            ("b".to_string(), SpanKind::Bold),
            (" ".to_string(), SpanKind::Plain),
            ("c".to_string(), SpanKind::Italic),
            (" ".to_string(), SpanKind::Plain),
            ("d".to_string(), SpanKind::Highlight),
            (" ".to_string(), SpanKind::Plain),
            ("e".to_string(), SpanKind::Strikethrough),
            (" ".to_string(), SpanKind::Plain),
            ("f".to_string(), SpanKind::Code),
        ]
    );
    assert_eq!(
        pieces("{{[[TODO]]}} see [[Page]] and ((uid1)) #tag #[[long tag]] [text](http://x)"),
        vec![
            ("☐ ".to_string(), SpanKind::Todo),
            (" see ".to_string(), SpanKind::Plain),
            ("Page".to_string(), SpanKind::PageLink),
            (" and ".to_string(), SpanKind::Plain),
            ("uid1".to_string(), SpanKind::BlockRef),
            (" ".to_string(), SpanKind::Plain),
            ("#tag".to_string(), SpanKind::Tag),
            (" ".to_string(), SpanKind::Plain),
            ("#[[long tag]]".to_string(), SpanKind::Tag),
            (" ".to_string(), SpanKind::Plain),
            ("text".to_string(), SpanKind::Link),
        ]
    );
    assert_eq!(pieces("{{DONE}}"), vec![("✓ ".to_string(), SpanKind::Done)]);
    assert_eq!(pieces("**open"), vec![("**open".to_string(), SpanKind::Plain)]);
    assert_eq!(pieces("[no link]"), vec![("[no link]".to_string(), SpanKind::Plain)]);
    assert_eq!(pieces("{{embed:  [[A page]] }}"), vec![("▸ A page".to_string(), SpanKind::Embed)]);
    assert_eq!(pieces("{{[[embed]]: plain}}"), vec![("▸ plain".to_string(), SpanKind::Embed)]);
    assert_eq!(pieces("{{other}}"), vec![("{{other}}".to_string(), SpanKind::Plain)]);
}

#[test]
fn references_show_the_text_of_their_block() {
    let mut map: StringMap<String> = StringMap::new();
    map.insert("u1".into(), "the text".into());
    let shown: Vec<(String, SpanKind)> =
        render_segments("((u1)) ((u2)) {{embed: ((u1))}}", Some(&map)).into_iter().map(|s| (s.text, s.kind)).collect();
    assert_eq!(
        shown,
        vec![
            ("the text".to_string(), SpanKind::BlockRef),
            (" ".to_string(), SpanKind::Plain),
            ("u2".to_string(), SpanKind::BlockRef),
            (" ".to_string(), SpanKind::Plain),
            ("▸ the text".to_string(), SpanKind::Embed),
        ]
    );
    assert_eq!(rendered_char_count("**ab** [[cd]]"), 5);
    assert_eq!(rendered_char_count(""), 0);
}

#[test]
fn embeds_name_their_block() {
    assert_eq!(extract_embed_uid("embed: ((abc))"), Some("abc".to_string()));
    assert_eq!(extract_embed_uid("[[embed]]:((abc))  "), Some("abc".to_string()));
    assert_eq!(extract_embed_uid("embed: [[Page]]"), None);
    assert_eq!(extract_embed_uid("TODO"), None);
    assert_eq!(extract_embed_uid("embed: (("), None);
}

#[test]
fn unknown_references_are_collected_in_order() {
    let local: StringMap<String> = StringMap::new();
    let mut cache: StringMap<String> = StringMap::new();
    cache.insert("known".into(), "text".into());
    let mut pending = StringSet::new();
    pending.insert("asked".into());
    let mut out = vec!["first".to_string()];
    extract_uids_from_text(
        "((a)) (()) ((known)) {{embed: ((b))}} ((asked)) ((a)) ((broken) ((c))",
        &local,
        &cache,
        &pending,
        &mut out,
    );
    assert_eq!(out, vec!["first", "a", "b", "a", "c"]);
    let mut out = vec![];
    extract_uids_from_text("((x", &local, &cache, &pending, &mut out);
    extract_uids_from_text("(())", &local, &cache, &pending, &mut out);
    assert!(out.is_empty());
}

#[test]
fn code_blocks_have_a_language_and_code() {
    assert!(is_code_block("```rust\nfn main() {}```"));
    assert!(!is_code_block("``not"));
    assert!(is_blockquote("> quote"));
    assert!(!is_blockquote(">quote"));
    assert!(is_markdown_lang("md") && is_markdown_lang("") && is_markdown_lang("markdown"));
    assert!(!is_markdown_lang("rust"));
    assert_eq!(parse_code_block("```\n rust \nlet a = 1;\nlet b = 2;```"), ("rust".to_string(), "let a = 1;\nlet b = 2;".to_string()));
    assert_eq!(parse_code_block("```python```"), ("python".to_string(), "".to_string()));
    assert_eq!(parse_code_block("plain"), ("plain".to_string(), "".to_string()));
    assert_eq!(parse_code_block("```\n\ncode```"), ("".to_string(), "code".to_string()));
}

#[test]
fn text_is_wrapped_between_words() {
    assert_eq!(wrap_text("the quick brown fox", 10), vec!["the quick", "brown fox"]);
    assert_eq!(wrap_text("  spaced   out  ", 20), vec!["spaced out"]);
    assert_eq!(wrap_text("extraordinarily long", 5), vec!["extraordinarily", "long"]);
    assert_eq!(wrap_text("", 5), vec![""]);
    assert_eq!(wrap_text("a  b", 0), vec!["a  b"]);
    // Widths count bytes: each of these letters takes two.
    assert_eq!(wrap_text("éé éé", 5), vec!["éé", "éé"]);
    assert_eq!(wrap_text("éé éé", 9), vec!["éé éé"]);
    assert_eq!(truncate("héllo", 2), "hé");
    assert_eq!(truncate("héllo", 9), "héllo");
}

#[test]
fn lines_break_after_the_last_space() {
    let chars: Vec<char> = "hello brave new world".chars().collect();
    assert_eq!(wrap_breaks(&chars, 8, 10), vec![6, 16]);
    assert_eq!(wrap_breaks(&chars, 30, 10), Vec::<usize>::new());
    let solid: Vec<char> = "abcdefghij".chars().collect();
    assert_eq!(wrap_breaks(&solid, 4, 3), vec![4, 7]);
    assert_eq!(wrap_breaks(&solid, 0, 0), vec![1, 2, 3, 4, 5, 6, 7, 8, 9]);
    assert_eq!(scroll_offset(3, 100, 20), 0);
    assert_eq!(scroll_offset(30, 100, 20), 20);
    assert_eq!(scroll_offset(99, 100, 20), 80);
    assert_eq!(scroll_offset(15, 10, 20), 0);
    let text: Vec<char> = "ab\ncde\n".chars().collect();
    assert_eq!(cursor_line_col(&text, 0), (0, 0));
    assert_eq!(cursor_line_col(&text, 2), (0, 2));
    assert_eq!(cursor_line_col(&text, 3), (1, 0));
    assert_eq!(cursor_line_col(&text, 6), (1, 3));
    assert_eq!(cursor_line_col(&text, 7), (2, 0));
    assert_eq!(cursor_line_col(&text, 50), (2, 0));
}

#[test]
fn outline_rows_follow_the_blocks() {
    let mut closed = block("k", "closed", 1, vec![block("k1", "hidden", 0, vec![]), block("k2", "hidden", 1, vec![])]);
    closed.open = false;
    let days = vec![
        page("p1", "One", day(), vec![block("a", "> quoted", 0, vec![block("a1", "```rs\ncode```", 0, vec![])]), closed]),
        page("p2", "Two", day(), vec![block("b", "plain", 0, vec![])]),
    ];
    let rows = build_visible_lines(&days, true);
    assert_eq!(
        rows,
        vec![
            OutlineRow::DayHeading("One".into()),
            OutlineRow::Blockquote { depth: 0, text: "quoted".into(), block_index: 0 },
            OutlineRow::Code { depth: 1, lang: "rs".into(), code: "code".into(), block_index: 1 },
            OutlineRow::Block { depth: 0, text: "closed".into(), block_index: 2, collapsed_children: 2 },
            OutlineRow::DaySeparator,
            OutlineRow::DayHeading("Two".into()),
            OutlineRow::Block { depth: 0, text: "plain".into(), block_index: 3, collapsed_children: 0 },
            OutlineRow::DaySeparator,
            OutlineRow::LoadingMore,
        ]
    );
    assert!(build_visible_lines(&vec![], false).is_empty());
}

#[test]
fn daily_notes_are_kept_from_the_newest_to_the_oldest() {
    let mut state = state_with(vec![]);
    state.loading = true;
    place_daily_note(&mut state, page("d2", "", Date { year: 2026, month: 2, day: 20 }, vec![]), "u1".into());
    place_daily_note(&mut state, page("d3", "T", Date { year: 2026, month: 2, day: 21 }, vec![block("x", "x", 0, vec![])]), "u2".into());
    place_daily_note(&mut state, page("d1", "", Date { year: 2025, month: 12, day: 31 }, vec![]), "u3".into());
    let shape: Vec<(&str, &str, &str)> =
        state.days.iter().map(|d| (d.uid.as_str(), d.title.as_str(), d.blocks[0].uid.as_str())).collect();
    assert_eq!(
        shape,
        vec![("d3", "T", "x"), ("d2", "February 20th, 2026", "u1"), ("d1", "December 31st, 2025", "u3")]
    );
    assert!(!state.loading);
    place_page(&mut state, page("pg", "", day(), vec![]), "u4".into());
    assert_eq!(state.days.len(), 1);
    assert_eq!(state.days[0].title, "");
    assert_eq!(state.days[0].blocks[0].uid, "u4");
}

#[test]
fn moving_down_past_the_last_block_asks_for_the_day_before() {
    let mut state = state_with(vec![page("d", "D", Date { year: 2024, month: 3, day: 1 }, vec![block("a", "a", 0, vec![])])]);
    let request = handle_action(&mut state, &Action::MoveDown);
    assert_eq!(request, Some(LoadRequest::DailyNote(Date { year: 2024, month: 2, day: 29 })));
    assert!(state.loading_more);
    assert_eq!(handle_action(&mut state, &Action::MoveDown), None);
    let mut state = state_with(vec![page("d", "D", Date { year: 2025, month: 1, day: 1 }, vec![block("a", "a", 0, vec![])])]);
    assert_eq!(
        handle_action(&mut state, &Action::PrevDay),
        Some(LoadRequest::DailyNote(Date { year: 2024, month: 12, day: 31 }))
    );
    let mut state = state_with(vec![page("d", "D", Date { year: 2025, month: 2, day: 30 }, vec![block("a", "a", 0, vec![])])]);
    assert_eq!(handle_action(&mut state, &Action::MoveDown), None);
    assert!(!state.loading_more);
}

#[test]
fn history_of_views_is_bounded() {
    let mut state = state_with(vec![page("d", "D", day(), vec![block("a", "a", 0, vec![])])]);
    for i in 0..60 {
        state.selected_block = i;
        push_nav_snapshot(&mut state);
    }
    assert_eq!(state.nav_history.len(), 50);
    assert_eq!(state.nav_index, 50);
    assert_eq!(state.nav_history[0].selected_block, 10);
    assert_eq!(state.nav_history[49].selected_block, 59);
    state.nav_index = 3;
    let request = navigate_to_page(&mut state, "Target".into());
    assert_eq!(request, LoadRequest::Page("Target".into()));
    assert_eq!(state.nav_history.len(), 4);
    assert_eq!(state.nav_index, 4);
    assert_eq!(state.status_message.as_deref(), Some("Loading Target..."));
    assert!(state.days.is_empty());
    handle_action(&mut state, &Action::NavBack);
    assert_eq!(state.nav_history.len(), 5);
    assert_eq!(state.nav_index, 3);
    assert_eq!(state.days.len(), 1);
    assert_eq!(state.view_mode, ViewMode::DailyNotes);
    handle_action(&mut state, &Action::NavForward);
    assert_eq!(state.nav_index, 4);
    assert_eq!(state.view_mode, ViewMode::Page { title: "Target".into() });
}

#[test]
fn keys_go_to_what_is_open() {
    let mut state = state_with(vec![page("d", "D", day(), vec![block("a", "a", 0, vec![]), block("b", "b", 1, vec![])])]);
    let keys = vim_preset();
    assert_eq!(route_key(&state), KeyRoute::Normal);
    assert_eq!(handle_key(&mut state, &plain(KeyCode::Char('j')), &keys), Effect::Nothing);
    assert_eq!(state.selected_block, 1);
    assert_eq!(handle_key(&mut state, &plain(KeyCode::Char('d')), &keys), Effect::Nothing);
    assert_eq!(state.pending_key, Some('d'));
    let effect = handle_key(&mut state, &plain(KeyCode::Char('d')), &keys);
    assert!(matches!(effect, Effect::Write(WriteAction::DeleteBlock { .. })));
    assert_eq!(state.pending_key, None);
    assert_eq!(state.days[0].blocks.len(), 1);
    let effect = handle_key(&mut state, &plain(KeyCode::Char('u')), &keys);
    assert!(matches!(effect, Effect::Write(WriteAction::CreateBlock { .. })));
    assert_eq!(state.days[0].blocks.len(), 2);
    let effect = handle_normal_key(&mut state, &KeyEvent::new(KeyCode::Char('r'), KeyModifiers::control()), &keys);
    assert!(matches!(effect, Effect::Write(WriteAction::DeleteBlock { .. })));
    state.show_help = true;
    assert_eq!(route_key(&state), KeyRoute::CloseHelp);
    handle_key(&mut state, &plain(KeyCode::Char('q')), &keys);
    assert!(!state.show_help && !state.should_quit);
    handle_key(&mut state, &plain(KeyCode::Char('i')), &keys);
    assert_eq!(route_key(&state), KeyRoute::Insert);
    handle_key(&mut state, &plain(KeyCode::Char('q')), &keys);
    assert!(!state.should_quit);
    state.search = Some(SearchState { query: "ab".into(), results: vec![], selected: 0 });
    assert_eq!(route_key(&state), KeyRoute::Search);
    handle_key(&mut state, &plain(KeyCode::Backspace), &keys);
    assert_eq!(state.search.as_ref().unwrap().query, "a");
    assert_eq!(state.search.as_ref().unwrap().results.len(), 1);
}

#[test]
fn ticks_lead_to_a_refresh() {
    let mut state = state_with(vec![page("d", "D", day(), vec![block("a", "a", 0, vec![])])]);
    for _ in 0..119 {
        assert!(!on_tick(&mut state));
    }
    assert_eq!(state.refresh_counter, 119);
    assert!(on_tick(&mut state));
    assert_eq!(state.refresh_counter, 0);
    state.refresh_counter = 200;
    state.loading = true;
    assert!(!on_tick(&mut state));
    assert_eq!(state.refresh_counter, 201);
    state.view_mode = ViewMode::Page { title: "P".into() };
    assert!(!on_tick(&mut state));
    assert_eq!(state.refresh_counter, 0);
}

#[test]
fn ticks_do_not_count_while_something_is_open() {
    let mut state = state_with(vec![page("d", "D", day(), vec![block("a", "a", 0, vec![])])]);
    state.refresh_counter = 119;
    state.search = Some(SearchState { query: "".into(), results: vec![], selected: 0 });
    assert!(!on_tick(&mut state));
    assert_eq!(state.refresh_counter, 0);
    state.search = None;
    state.refresh_counter = 119;
    state.show_help = true;
    assert!(!on_tick(&mut state));
    assert_eq!(state.refresh_counter, 0);
    state.show_help = false;
    state.refresh_counter = 119;
    state.error_popup = Some(ErrorPopup::from_api(500, "x"));
    assert!(!on_tick(&mut state));
    assert_eq!(state.refresh_counter, 0);
    state.error_popup = None;
    state.refresh_counter = 119;
    assert!(on_tick(&mut state));
}

#[test]
fn answers_are_taken_in() {
    let mut state = state_with(vec![page("d", "D", day(), vec![block("a", "a", 0, vec![])])]);
    state.pending_block_refs.insert("u".into());
    state.pending_block_refs.insert("v".into());
    handle_block_ref_resolved(&mut state, "u".into(), "text".into());
    assert_eq!(state.block_ref_cache.get("u").unwrap(), "text");
    assert!(!state.pending_block_refs.contains("u"));
    assert!(state.pending_block_refs.contains("v"));
    handle_linked_refs_loaded(&mut state, "D".into(), vec![]);
    assert!(state.linked_refs.contains_key("D"));
    assert_eq!(state.total_navigable_count(), 1);
}

#[test]
fn uids_are_written_to_the_base_sixteen() {
    assert_eq!(roam_tui::actions::uid_for(0), "tui-0");
    assert_eq!(roam_tui::actions::uid_for(255), "tui-ff");
    assert_eq!(roam_tui::actions::uid_for(0x1a2b3c4d5e6f7089), "tui-1a2b3c4d5e6f7089");
    assert_eq!(roam_tui::actions::uid_for(u128::MAX), format!("tui-{}", "f".repeat(32)));
}

#[test]
fn an_awaited_text_is_awaited_once() {
    let mut set = StringSet::new();
    set.insert("a".into());
    set.insert("b".into());
    set.insert("c".into());
    assert!(set.remove("b"));
    assert_eq!(set.items, vec!["a".to_string(), "c".to_string()]);
}

#[test]
fn blocks_and_rows_are_counted() {
    let blocks = vec![
        block("a", "a", 0, vec![block("a1", "", 0, vec![block("a2", "", 0, vec![])])]),
        block("b", "b", 1, vec![]),
    ];
    assert_eq!(roam_tui::bounds::block_total(&blocks), Some(4));
    assert_eq!(roam_tui::bounds::block_total(&vec![]), Some(0));
    let mut refs = StringMap::new();
    refs.insert(
        "One".to_string(),
        roam_tui::state::LinkedRefsState {
            groups: vec![roam_tui::types::LinkedRefGroup {
                page_title: "Other".into(),
                blocks: vec![
                    roam_tui::types::LinkedRefBlock { uid: "r1".into(), string: "x".into(), page_title: "Other".into() },
                    roam_tui::types::LinkedRefBlock { uid: "r2".into(), string: "y".into(), page_title: "Other".into() },
                ],
            }],
            collapsed: false,
            loading: false,
        },
    );
    assert_eq!(roam_tui::bounds::section_total(refs.get("One").unwrap()), Some(4));
    let days = vec![page("p1", "One", day(), blocks), page("p2", "Two", day(), vec![block("c", "", 0, vec![])])];
    assert_eq!(roam_tui::bounds::doc_total(&days, &refs), Some(9));
    let mut state = state_with(days);
    state.linked_refs = refs;
    assert!(roam_tui::bounds::is_sound(&state));
    let mut buffer = EditBuffer::new("abc");
    buffer.cursor = 4;
    state.input_mode = InputMode::Insert {
        buffer,
        block_uid: "a".into(),
        original_text: "abc".into(),
        create_info: None,
    };
    assert!(!roam_tui::bounds::is_sound(&state));
    let keys = vim_preset();
    let before = state.days.clone();
    let answer = roam_tui::session::handle_message(
        &mut state,
        roam_tui::state::AppMessage::Key(plain(KeyCode::Char('x'))),
        &keys,
    );
    assert_eq!(answer, None);
    assert_eq!(state.days, before);
}

#[test]
fn a_key_leads_to_its_command() {
    let mut state = state_with(vec![page("d", "D", day(), vec![block("a", "a", 0, vec![]), block("b", "b", 1, vec![])])]);
    let keys = vim_preset();
    let key = |c: char| roam_tui::state::AppMessage::Key(plain(KeyCode::Char(c)));
    assert_eq!(roam_tui::session::handle_message(&mut state, key('j'), &keys), Some(vec![]));
    assert_eq!(state.selected_block, 1);
    assert_eq!(roam_tui::session::handle_message(&mut state, key('d'), &keys), Some(vec![]));
    let commands = roam_tui::session::handle_message(&mut state, key('d'), &keys).unwrap();
    assert_eq!(
        commands,
        vec![roam_tui::session::Command::Write(WriteAction::DeleteBlock {
            block: roam_tui::types::BlockRef { uid: "b".into() },
        })]
    );
    state.selected_block = 0;
    let commands = roam_tui::session::handle_message(&mut state, key('j'), &keys).unwrap();
    assert_eq!(
        commands,
        vec![roam_tui::session::Command::Load(LoadRequest::DailyNote(Date { year: 2026, month: 2, day: 20 }))]
    );
}

#[test]
fn a_loaded_daily_note_asks_for_what_it_refers_to() {
    let mut state = state_with(vec![]);
    state.block_ref_cache.insert("cached".into(), "text".into());
    state.linked_refs.insert(
        "Held".into(),
        roam_tui::state::LinkedRefsState { groups: vec![], collapsed: true, loading: false },
    );
    let keys = vim_preset();
    let note = page(
        "d1",
        "Held",
        day(),
        vec![block("a", "see ((far)) and ((b)) and ((cached))", 0, vec![]), block("b", "((far)) ((near))", 1, vec![])],
    );
    let commands =
        roam_tui::session::handle_message(&mut state, roam_tui::state::AppMessage::DailyNoteLoaded(note), &keys).unwrap();
    assert_eq!(
        commands,
        vec![
            roam_tui::session::Command::ResolveBlockRef("far".into()),
            roam_tui::session::Command::ResolveBlockRef("far".into()),
            roam_tui::session::Command::ResolveBlockRef("near".into()),
        ]
    );
    assert_eq!(state.pending_block_refs.items, vec!["far".to_string(), "near".to_string()]);
    assert_eq!(state.linked_refs.len(), 1);
    let older = page("d0", "Older", Date { year: 2026, month: 2, day: 20 }, vec![block("c", "((far))", 0, vec![])]);
    let commands =
        roam_tui::session::handle_message(&mut state, roam_tui::state::AppMessage::DailyNoteLoaded(older), &keys).unwrap();
    assert_eq!(commands, vec![roam_tui::session::Command::FetchLinkedRefs("Older".into())]);
    let held = state.linked_refs.get("Older").unwrap();
    assert!(held.loading && !held.collapsed && held.groups.is_empty());
    assert!(state.linked_refs.get("Held").unwrap().collapsed);
    assert_eq!(state.days.len(), 2);
}

#[test]
fn a_loaded_page_asks_for_its_references() {
    let keys = vim_preset();
    let mut state = state_with(vec![page("d", "D", day(), vec![block("a", "a", 0, vec![])])]);
    navigate_to_page(&mut state, "Target".into());
    let note = page("t", "Target", Date { year: 2000, month: 1, day: 1 }, vec![block("x", "((u))", 0, vec![])]);
    let commands =
        roam_tui::session::handle_message(&mut state, roam_tui::state::AppMessage::PageLoaded(note), &keys).unwrap();
    assert_eq!(
        commands,
        vec![
            roam_tui::session::Command::ResolveBlockRef("u".into()),
            roam_tui::session::Command::FetchLinkedRefs("Target".into()),
        ]
    );
    assert!(state.linked_refs.get("Target").unwrap().loading);
    assert!(state.pending_block_refs.contains("u"));
    let mut state = state_with(vec![page("d", "D", day(), vec![block("a", "a", 0, vec![])])]);
    let note = page("t", "Late", Date { year: 2000, month: 1, day: 1 }, vec![]);
    let commands =
        roam_tui::session::handle_message(&mut state, roam_tui::state::AppMessage::PageLoaded(note), &keys).unwrap();
    assert_eq!(commands, vec![]);
    assert_eq!(state.days.len(), 1);
    assert_eq!(state.days[0].blocks.len(), 1);
}

#[test]
fn other_messages_are_taken_in() {
    let keys = vim_preset();
    let mut state = state_with(vec![
        page("d1", "D1", day(), vec![block("a", "a", 0, vec![])]),
        page("d0", "D0", Date { year: 2026, month: 2, day: 20 }, vec![block("b", "b", 0, vec![])]),
    ]);
    state.refresh_counter = 119;
    let commands = roam_tui::session::handle_message(&mut state, roam_tui::state::AppMessage::Tick, &keys).unwrap();
    assert_eq!(
        commands,
        vec![
            roam_tui::session::Command::RefreshDailyNote(day()),
            roam_tui::session::Command::RefreshDailyNote(Date { year: 2026, month: 2, day: 20 }),
        ]
    );
    assert_eq!(state.refresh_counter, 0);
    let commands = roam_tui::session::handle_message(&mut state, roam_tui::state::AppMessage::Tick, &keys).unwrap();
    assert_eq!(commands, vec![]);
    assert_eq!(state.refresh_counter, 1);
    state.loading = true;
    let error = roam_tui::state::AppMessage::ApiError(ErrorInfo::Network("down".into()));
    assert_eq!(roam_tui::session::handle_message(&mut state, error, &keys), Some(vec![]));
    assert!(!state.loading);
    assert_eq!(state.error_popup.as_ref().unwrap().title, "Network Error");
    let fresh = page("d0", "D0", Date { year: 2026, month: 2, day: 20 }, vec![block("b", "changed", 0, vec![])]);
    let refresh = roam_tui::state::AppMessage::RefreshLoaded(fresh);
    assert_eq!(roam_tui::session::handle_message(&mut state, refresh, &keys), Some(vec![]));
    assert_eq!(state.days[1].blocks[0].string, "changed");
    state.pending_block_refs.insert("u".into());
    let text = roam_tui::state::AppMessage::BlockRefResolved("u".into(), "the text".into());
    assert_eq!(roam_tui::session::handle_message(&mut state, text, &keys), Some(vec![]));
    assert_eq!(state.block_ref_cache.get("u").unwrap(), "the text");
    assert!(state.pending_block_refs.is_empty());
    let refs = roam_tui::state::AppMessage::LinkedRefsLoaded("D1".into(), vec![]);
    assert_eq!(roam_tui::session::handle_message(&mut state, refs, &keys), Some(vec![]));
    assert!(!state.linked_refs.get("D1").unwrap().loading);
}

#[test]
fn answers_of_the_service_are_read() {
    let v: serde_json::Value = serde_json::from_str(
        r#"{":block/uid": "pg", ":node/title": "", ":block/children": [{":block/uid": "x", ":block/string": "hello"}]}"#,
    )
    .unwrap();
    let note = roam_tui::json::page_from_pull("Asked", &v);
    assert_eq!(note.uid, "pg");
    assert_eq!(note.title, "Asked");
    assert_eq!(note.date, Date { year: 2000, month: 1, day: 1 });
    assert_eq!(note.blocks.len(), 1);
    let v: serde_json::Value = serde_json::from_str(r#"{":node/title": "Own"}"#).unwrap();
    let note = roam_tui::json::page_from_pull("Asked", &v);
    assert_eq!((note.uid.as_str(), note.title.as_str()), ("", "Own"));
    let v: serde_json::Value = serde_json::from_str(r#"{":block/string": "text"}"#).unwrap();
    assert_eq!(roam_tui::json::block_text_from_pull(&v), Some("text".to_string()));
    let v: serde_json::Value = serde_json::from_str(r#"{":block/string": ""}"#).unwrap();
    assert_eq!(roam_tui::json::block_text_from_pull(&v), None);
    assert_eq!(roam_tui::json::block_text_from_pull(&serde_json::Value::Null), None);
    let (eid, selector) = roam_tui::queries::pull_block_text("abc");
    assert_eq!(eid, serde_json::Value::String("[:block/uid \"abc\"]".into()));
    assert_eq!(selector, "[:block/string]");
}

#[test]
fn rows_are_laid_out_where_they_can_be_counted() {
    let days = vec![page("p", "P", day(), vec![block("a", "a", 0, vec![])])];
    assert_eq!(roam_tui::render::visible_lines(&days, false), Some(build_visible_lines(&days, false)));
}

#[test]
fn an_edit_that_changes_nothing_keeps_the_steps_to_do_again() {
    let mut state = state_with(vec![page("d", "D", day(), vec![block("a", "one", 0, vec![]), block("b", "two", 1, vec![])])]);
    state.redo_stack.push(roam_tui::state::UndoEntry::TextEdit { block_uid: "a".into(), old_text: "zero".into() });
    state.input_mode = InputMode::Insert {
        buffer: EditBuffer::new("one"),
        block_uid: "a".into(),
        original_text: "one".into(),
        create_info: None,
    };
    assert_eq!(roam_tui::input::finalize_insert(&mut state), None);
    assert_eq!(state.input_mode, InputMode::Normal);
    assert_eq!(state.redo_stack.len(), 1);
    assert!(state.undo_stack.is_empty());
    assert_eq!(state.days[0].blocks[0].string, "one");
    // The first block cannot be indented, and no top-level block dedented.
    state.input_mode = InputMode::Insert {
        buffer: EditBuffer::new("one"),
        block_uid: "a".into(),
        original_text: "one".into(),
        create_info: None,
    };
    assert_eq!(roam_tui::input::handle_indent(&mut state), None);
    assert_eq!(roam_tui::input::handle_dedent(&mut state), None);
    assert_eq!(state.redo_stack.len(), 1);
    state.input_mode = InputMode::Normal;
    state.selected_block = 7;
    assert_eq!(roam_tui::input::handle_delete_block(&mut state), None);
    assert_eq!(state.redo_stack.len(), 1);
    // A change empties them.
    state.input_mode = InputMode::Insert {
        buffer: EditBuffer::new("changed"),
        block_uid: "a".into(),
        original_text: "one".into(),
        create_info: None,
    };
    assert!(roam_tui::input::finalize_insert(&mut state).is_some());
    assert!(state.redo_stack.is_empty());
    assert_eq!(state.undo_stack.len(), 1);
}

#[test]
fn a_step_back_keeps_the_history_within_its_bound() {
    let mut state = state_with(vec![page("d", "D", day(), vec![block("a", "a", 0, vec![])])]);
    for i in 0..50 {
        state.selected_block = i;
        push_nav_snapshot(&mut state);
    }
    state.selected_block = 77;
    assert_eq!((state.nav_history.len(), state.nav_index), (50, 50));
    handle_action(&mut state, &Action::NavBack);
    assert_eq!(state.nav_history.len(), 50);
    assert_eq!(state.nav_index, 48);
    assert_eq!(state.selected_block, 49);
    assert_eq!(state.nav_history[49].selected_block, 77);
    assert_eq!(state.nav_history[0].selected_block, 1);
    handle_action(&mut state, &Action::NavForward);
    assert_eq!(state.selected_block, 77);
    assert_eq!(state.nav_history.len(), 50);
}

#[test]
fn the_day_at_the_head_is_written_short() {
    let state = AppState::new("graph", vec![]);
    let months = ["Jan", "Feb", "Mar", "Apr", "May", "Jun", "Jul", "Aug", "Sep", "Oct", "Nov", "Dec"];
    let today = state.current_date;
    let expected = format!("{} {:02}, {:04}", months[(today.month - 1) as usize], today.day, today.year);
    assert_eq!(state.date_display, expected);
    assert!(today.year >= 1970);
}

#[test]
fn a_new_block_has_a_uid_of_its_own() {
    let mut state = state_with(vec![page("02-25-2026", "D", day(), vec![block("b1", "A", 0, vec![])])]);
    assert!(roam_tui::input::handle_delete_block(&mut state).is_some());
    handle_action(&mut state, &Action::CreateBlock);
    assert_eq!(state.days[0].blocks.len(), 1);
    let made = &state.days[0].blocks[0];
    assert!(made.uid.starts_with("tui-") && made.uid != "b1");
    assert!(made.uid[4..].chars().all(|c| c.is_ascii_digit() || ('a'..='f').contains(&c)));
    assert_eq!((made.string.as_str(), made.order), ("", 0));
    let mut state = state_with(vec![page(
        "02-21-2026",
        "D",
        day(),
        vec![
            block("p1", "P", 0, vec![block("c1", "", 0, vec![]), block("c2", "", 1, vec![])]),
            block("b2", "Sibling", 1, vec![]),
        ],
    )]);
    handle_action(&mut state, &Action::CreateBlock);
    let top: Vec<i64> = state.days[0].blocks.iter().map(|b| b.order).collect();
    assert_eq!(top, vec![0, 1, 1]);
    assert_eq!(state.days[0].blocks[2].uid, "b2");
    assert_eq!(state.selected_block, 3);
}

#![allow(unused_imports, dead_code, unused_mut)]
use roam_tui::edit_buffer::EditBuffer;
use roam_tui::slash::{all_commands, detect_trigger, execute, filter, DateOffset, SlashAction};

#[test]
fn trigger_at_start() {
    let mut buf = EditBuffer::new("/");
    buf.cursor = 1;
    assert_eq!(detect_trigger(&buf), Some(0));
}

#[test]
fn trigger_after_space() {
    let mut buf = EditBuffer::new("text /");
    buf.cursor = 6;
    assert_eq!(detect_trigger(&buf), Some(5));
}

#[test]
fn trigger_after_newline() {
    let mut buf = EditBuffer::new("line\n/");
    buf.cursor = 6;
    assert_eq!(detect_trigger(&buf), Some(5));
}

#[test]
fn no_trigger_mid_word() {
    let mut buf = EditBuffer::new("http:/");
    buf.cursor = 6;
    assert_eq!(detect_trigger(&buf), None);
}

#[test]
fn no_trigger_in_path() {
    let mut buf = EditBuffer::new("path/to");
    buf.cursor = 5; // just after '/'
    assert_eq!(detect_trigger(&buf), None);
}

#[test]
fn no_trigger_empty_buffer() {
    let buf = EditBuffer::new_empty();
    assert_eq!(detect_trigger(&buf), None);
}

#[test]
fn no_trigger_cursor_at_start() {
    let mut buf = EditBuffer::new("/abc");
    buf.cursor = 0;
    assert_eq!(detect_trigger(&buf), None);
}

#[test]
fn filter_empty_returns_all() {
    let results = filter("");
    assert_eq!(results.len(), 18);
}

#[test]
fn filter_by_prefix() {
    let results = filter("to");
    let names: Vec<&str> = results.iter().map(|c| c.name).collect();
    assert!(names.contains(&"todo"));
    assert!(names.contains(&"tomorrow"));
}

#[test]
fn filter_case_insensitive() {
    let results = filter("TODO");
    assert!(results.iter().any(|c| c.name == "todo"));
}

#[test]
fn filter_no_match() {
    let results = filter("zzz");
    assert!(results.is_empty());
}

#[test]
fn filter_partial_match() {
    let results = filter("ode");
    assert!(results.iter().any(|c| c.name == "code"));
}

#[test]
fn all_commands_has_18() {
    assert_eq!(all_commands().len(), 18);
}

#[test]
fn all_commands_unique_names() {
    let cmds = all_commands();
    let names: Vec<&str> = cmds.iter().map(|c| c.name).collect();
    let mut unique = names.clone();
    unique.sort();
    unique.dedup();
    assert_eq!(names.len(), unique.len());
}

#[test]
fn execute_insert_text_hr() {
    let mut buf = EditBuffer::new("hello /");
    buf.cursor = 7;
    execute(&SlashAction::InsertText("---"), &mut buf, 6, 0);
    assert_eq!(buf.to_string(), "hello ---");
}

#[test]
fn execute_insert_text_with_query() {
    let mut buf = EditBuffer::new("text /hr");
    buf.cursor = 8;
    execute(&SlashAction::InsertText("---"), &mut buf, 5, 2);
    assert_eq!(buf.to_string(), "text ---");
}

#[test]
fn execute_insert_pair_bold() {
    let mut buf = EditBuffer::new("/");
    buf.cursor = 1;
    execute(
        &SlashAction::InsertPair {
            open: "**",
            close: "**",
        },
        &mut buf,
        0,
        0,
    );
    assert_eq!(buf.to_string(), "****");
    assert_eq!(buf.cursor, 2); // between the pairs
}

#[test]
fn execute_insert_pair_embed() {
    let mut buf = EditBuffer::new("test /");
    buf.cursor = 6;
    execute(
        &SlashAction::InsertPair {
            open: "{{[[embed]]: ",
            close: "}}",
        },
        &mut buf,
        5,
        0,
    );
    assert_eq!(buf.to_string(), "test {{[[embed]]: }}");
    assert_eq!(buf.cursor, 18); // after "{{[[embed]]: "
}

#[test]
fn execute_prepend_todo() {
    let mut buf = EditBuffer::new("buy milk /");
    buf.cursor = 10;
    execute(&SlashAction::PrependText("{{[[TODO]]}} "), &mut buf, 9, 0);
    assert_eq!(buf.to_string(), "{{[[TODO]]}} buy milk ");
}

#[test]
fn execute_prepend_replaces_existing_todo() {
    let mut buf = EditBuffer::new("{{[[TODO]]}} task /");
    buf.cursor = 19;
    execute(&SlashAction::PrependText("{{[[DONE]]}} "), &mut buf, 18, 0);
    assert_eq!(buf.to_string(), "{{[[DONE]]}} task ");
}

#[test]
fn execute_prepend_h1() {
    let mut buf = EditBuffer::new("title /");
    buf.cursor = 7;
    execute(&SlashAction::PrependText("# "), &mut buf, 6, 0);
    assert_eq!(buf.to_string(), "# title ");
}

#[test]
fn execute_prepend_replaces_existing_done() {
    let mut buf = EditBuffer::new("{{[[DONE]]}} task /");
    buf.cursor = 19;
    execute(&SlashAction::PrependText("{{[[TODO]]}} "), &mut buf, 18, 0);
    assert_eq!(buf.to_string(), "{{[[TODO]]}} task ");
}

#[test]
fn execute_insert_date_today() {
    let mut buf = EditBuffer::new("/");
    buf.cursor = 1;
    execute(&SlashAction::InsertDate(DateOffset::Today), &mut buf, 0, 0);
    let result = buf.to_string();
    assert!(result.starts_with("[["));
    assert!(result.ends_with("]]"));
    // Should contain a year
    assert!(result.contains("2026") || result.contains("2025") || result.contains("2027"));
}

#[test]
fn execute_insert_time() {
    let mut buf = EditBuffer::new("/");
    buf.cursor = 1;
    execute(&SlashAction::InsertTime, &mut buf, 0, 0);
    let result = buf.to_string();
    assert_eq!(result.len(), 5); // "HH:MM"
    assert_eq!(result.chars().nth(2), Some(':'));
}

#[test]
fn execute_insert_code_block() {
    let mut buf = EditBuffer::new("text /");
    buf.cursor = 6;
    execute(&SlashAction::InsertCodeBlock, &mut buf, 5, 0);
    assert_eq!(buf.to_string(), "text ```\n\n```");
    assert_eq!(buf.cursor, 9); // on the empty line
}

#[test]
fn execute_with_query_in_middle() {
    let mut buf = EditBuffer::new("start /bo end");
    buf.cursor = 10; // after "bo"
    execute(
        &SlashAction::InsertPair {
            open: "**",
            close: "**",
        },
        &mut buf,
        6,
        2,
    );
    assert_eq!(buf.to_string(), "start **** end");
    assert_eq!(buf.cursor, 8); // between ** and **
}

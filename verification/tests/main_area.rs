#![allow(unused_imports, dead_code, unused_mut)]
use roam_tui::date::Date;
use roam_tui::render::{build_visible_lines, OutlineRow};
use roam_tui::types::{Block, DailyNote};

fn make_block(uid: &str, text: &str, order: i64) -> Block {
    Block {
        uid: uid.into(),
        string: text.into(),
        order,
        children: vec![],
        open: true,
        refs: vec![],
    }
}

fn make_daily_note(title: &str, year: i32, month: u32, day: u32, blocks: Vec<Block>) -> DailyNote {
    DailyNote {
        date: Date { year, month, day },
        uid: format!("{:02}-{:02}-{}", month, day, year),
        title: title.into(),
        blocks,
    }
}

#[test]
fn build_visible_lines_single_day() {
    let day = make_daily_note(
        "February 21, 2026",
        2026,
        2,
        21,
        vec![make_block("b1", "Hello", 0), make_block("b2", "World", 1)],
    );
    let lines = build_visible_lines(&vec![day], false);

    assert_eq!(lines.len(), 3); // heading + 2 blocks
    assert!(matches!(&lines[0], OutlineRow::DayHeading(t) if t == "February 21, 2026"));
    assert!(
        matches!(&lines[1], OutlineRow::Block { block_index: 0, text, .. } if text == "Hello")
    );
    assert!(
        matches!(&lines[2], OutlineRow::Block { block_index: 1, text, .. } if text == "World")
    );
}

#[test]
fn build_visible_lines_nested_blocks() {
    let parent = Block {
        uid: "p".into(),
        string: "Parent".into(),
        order: 0,
        children: vec![make_block("c1", "Child", 0)],
        open: true,
        refs: vec![],
    };
    let day = make_daily_note("Feb 21", 2026, 2, 21, vec![parent]);
    let lines = build_visible_lines(&vec![day], false);

    assert_eq!(lines.len(), 3); // heading + parent + child
    assert!(matches!(
        &lines[1],
        OutlineRow::Block {
            depth: 0,
            block_index: 0,
            ..
        }
    ));
    assert!(matches!(
        &lines[2],
        OutlineRow::Block {
            depth: 1,
            block_index: 1,
            ..
        }
    ));
}

#[test]
fn build_visible_lines_two_days_has_separator() {
    let day1 = make_daily_note("Day 1", 2026, 2, 21, vec![make_block("a", "A", 0)]);
    let day2 = make_daily_note("Day 2", 2026, 2, 20, vec![make_block("b", "B", 0)]);
    let lines = build_visible_lines(&vec![day1, day2], false);

    assert_eq!(lines.len(), 5);
    assert!(matches!(&lines[2], OutlineRow::DaySeparator));
    assert!(matches!(&lines[3], OutlineRow::DayHeading(t) if t == "Day 2"));
}

#[test]
fn build_visible_lines_loading_more() {
    let day = make_daily_note("Day 1", 2026, 2, 21, vec![make_block("a", "A", 0)]);
    let lines = build_visible_lines(&vec![day], true);

    let last = lines.last().unwrap();
    assert!(matches!(last, OutlineRow::LoadingMore));
}

#[test]
fn blockquote_detected_in_visible_lines() {
    let day = make_daily_note(
        "Feb 21",
        2026,
        2,
        21,
        vec![make_block("b1", "> quoted text", 0)],
    );
    let lines = build_visible_lines(&vec![day], false);

    assert!(matches!(
        &lines[1],
        OutlineRow::Blockquote { text, block_index: 0, .. } if text == "quoted text"
    ));
}

#[test]
fn blockquote_strips_prefix() {
    let day = make_daily_note(
        "Feb 21",
        2026,
        2,
        21,
        vec![make_block("b1", "> hello world", 0)],
    );
    let lines = build_visible_lines(&vec![day], false);

    if let OutlineRow::Blockquote { text, .. } = &lines[1] {
        assert!(
            !text.starts_with("> "),
            "Text should not contain '> ' prefix, got: '{}'",
            text
        );
        assert_eq!(text, "hello world");
    } else {
        panic!("Expected Blockquote variant, got: {:?}", &lines[1]);
    }
}

#[test]
fn blockquote_preserves_depth() {
    let parent = Block {
        uid: "p".into(),
        string: "Parent".into(),
        order: 0,
        children: vec![make_block("c1", "> nested quote", 0)],
        open: true,
        refs: vec![],
    };
    let day = make_daily_note("Feb 21", 2026, 2, 21, vec![parent]);
    let lines = build_visible_lines(&vec![day], false);

    assert!(matches!(
        &lines[2],
        OutlineRow::Blockquote { depth: 1, text, block_index: 1, .. } if text == "nested quote"
    ));
}

#[test]
fn regular_block_not_affected_by_blockquote() {
    let day = make_daily_note(
        "Feb 21",
        2026,
        2,
        21,
        vec![
            make_block("b1", "normal text", 0),
            make_block("b2", "> quoted", 1),
            make_block("b3", "also normal", 2),
        ],
    );
    let lines = build_visible_lines(&vec![day], false);

    assert!(matches!(&lines[1], OutlineRow::Block { text, .. } if text == "normal text"));
    assert!(matches!(&lines[2], OutlineRow::Blockquote { text, .. } if text == "quoted"));
    assert!(matches!(&lines[3], OutlineRow::Block { text, .. } if text == "also normal"));
}

#[test]
fn test_collapsed_block_shows_arrow_indicator() {
    let parent = Block {
        uid: "p".into(),
        string: "Parent".into(),
        order: 0,
        children: vec![make_block("c1", "Child", 0)],
        open: false,
        refs: vec![],
    };
    let day = make_daily_note("Feb 21", 2026, 2, 21, vec![parent]);
    let lines = build_visible_lines(&vec![day], false);

    assert!(matches!(
        &lines[1],
        OutlineRow::Block {
            collapsed_children: 1,
            ..
        }
    ));
}

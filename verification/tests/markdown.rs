#![allow(unused_imports, dead_code, unused_mut)]
use roam_tui::date::Date;
use roam_tui::markdown::{build_block_text_map, extract_page_links};
use roam_tui::types::{Block, DailyNote};

fn ymd(year: i32, month: u32, day: u32) -> Date {
    Date { year, month, day }
}

#[test]
fn build_map_from_flat_blocks() {

    let day = DailyNote {
        date: ymd(2026, 2, 21),
        uid: "02-21-2026".into(),
        title: "Feb 21".into(),
        blocks: vec![
            Block {
                uid: "b1".into(),
                string: "Hello".into(),
                order: 0,
                children: vec![],
                open: true, refs: vec![] },
            Block {
                uid: "b2".into(),
                string: "World".into(),
                order: 1,
                children: vec![],
                open: true, refs: vec![] },
        ],
    };
    let map = build_block_text_map(&vec![day]);
    assert_eq!(map.get("b1").unwrap(), "Hello");
    assert_eq!(map.get("b2").unwrap(), "World");
}

#[test]
fn build_map_includes_nested_blocks() {

    let day = DailyNote {
        date: ymd(2026, 2, 21),
        uid: "02-21-2026".into(),
        title: "Feb 21".into(),
        blocks: vec![Block {
            uid: "p".into(),
            string: "Parent".into(),
            order: 0,
            children: vec![Block {
                uid: "c".into(),
                string: "Child".into(),
                order: 0,
                children: vec![],
                open: true, refs: vec![] }],
            open: true, refs: vec![] }],
    };
    let map = build_block_text_map(&vec![day]);
    assert_eq!(map.get("p").unwrap(), "Parent");
    assert_eq!(map.get("c").unwrap(), "Child");
}

#[test]
fn build_map_skips_empty_strings() {

    let day = DailyNote {
        date: ymd(2026, 2, 21),
        uid: "02-21-2026".into(),
        title: "Feb 21".into(),
        blocks: vec![Block {
            uid: "empty".into(),
            string: "".into(),
            order: 0,
            children: vec![],
            open: true, refs: vec![] }],
    };
    let map = build_block_text_map(&vec![day]);
    assert!(!map.contains_key("empty"));
}

#[test]
fn extract_no_links_from_plain_text() {
    assert!(extract_page_links("hello world").is_empty());
}

#[test]
fn extract_single_page_link() {
    assert_eq!(extract_page_links("see [[My Page]]"), vec!["My Page"]);
}

#[test]
fn extract_multiple_page_links() {
    assert_eq!(
        extract_page_links("[[Page A]] and [[Page B]]"),
        vec!["Page A", "Page B"]
    );
}

#[test]
fn extract_deduplicates_links() {
    assert_eq!(
        extract_page_links("[[Dup]] then [[Dup]] again"),
        vec!["Dup"]
    );
}

#[test]
fn extract_ignores_block_refs() {
    assert!(extract_page_links("((uid123))").is_empty());
}

#[test]
fn extract_ignores_markdown_links() {
    assert!(extract_page_links("[text](http://url.com)").is_empty());
}

#[test]
fn extract_hashtag_page_link() {
    assert_eq!(extract_page_links("#[[Tag Page]]"), vec!["Tag Page"]);
}

#[test]
fn extract_mixed_links_and_tags() {
    assert_eq!(
        extract_page_links("[[Page]] and #[[Tag]]"),
        vec!["Page", "Tag"]
    );
}

#[test]
fn extract_unclosed_brackets_ignored() {
    assert!(extract_page_links("[[unclosed").is_empty());
}

#[test]
fn extract_link_inside_bold() {
    assert_eq!(extract_page_links("**[[Bold Page]]**"), vec!["Bold Page"]);
}

#[test]
fn extract_ignores_links_in_inline_code() {
    assert!(extract_page_links("`[[Code]]`").is_empty());
}

#[test]
fn extract_empty_brackets_skipped() {
    assert!(extract_page_links("[[]]").is_empty());
}

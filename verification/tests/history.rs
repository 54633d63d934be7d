use trapop::history::{
    find_by_id, history_lines, rotated_content, select_recent, should_rotate, text_preview, HistoryRecord,
    SOURCE_PREVIEW_CHARS,
};

#[test]
fn truncates_source_preview_and_strips_tags() {
    let long_text = "a".repeat(250);
    let record = HistoryRecord::new(&long_text, "translated".to_string(), false, "mock");
    assert_eq!(record.source_preview.chars().count(), SOURCE_PREVIEW_CHARS);

    let html_source = "<p>hello <strong>world</strong></p>";
    let record = HistoryRecord::new(html_source, "translated".to_string(), true, "mock");
    assert_eq!(record.source_preview, "hello world");
}

#[test]
fn plain_preview_keeps_angle_brackets() {
    assert_eq!(text_preview("if (a < b) x", 200, false), "if (a < b) x");
    assert_eq!(text_preview("if (a < b) x", 200, true), "if (a ");
    assert_eq!(text_preview("<i>abcdef</i>", 3, true), "abc");
    assert_eq!(text_preview("日本語テキスト", 3, false), "日本語");
}

#[test]
fn record_id_and_truncation() {
    let r = HistoryRecord::at_time("src", "x".repeat(50_010), false, "openai", 1_700_000_000_123, 255);
    assert_eq!(r.id, "1700000000123-ff");
    assert_eq!(r.timestamp_ms, 1_700_000_000_123);
    assert_eq!(r.translated_text.chars().count(), 50_000);
    assert_eq!(r.engine, "openai");
    assert_eq!(r.source_preview, "src");
    let r = HistoryRecord::at_time("s", "t".to_string(), true, "mock", 0, 0);
    assert_eq!(r.id, "0-0");
}

#[test]
fn recent_is_newest_first_and_limited() {
    let recent = select_recent(vec![0, 1, 2], 2);
    assert_eq!(recent, vec![2, 1]);
    assert_eq!(select_recent(vec![0, 1], 50), vec![1, 0]);
    assert_eq!(select_recent(Vec::<u8>::new(), 50), Vec::<u8>::new());
}

#[test]
fn history_lines_skip_blank_lines() {
    assert_eq!(history_lines("a\n\n  \nb\r\nc"), vec!["a", "b", "c"]);
    assert!(history_lines("").is_empty());
}

#[test]
fn finds_first_record_with_id() {
    let a = HistoryRecord::at_time("a", "A".to_string(), false, "mock", 1, 0);
    let b = HistoryRecord::at_time("b", "B".to_string(), false, "mock", 2, 0);
    let found = find_by_id(vec![a, b], "2-0").unwrap();
    assert_eq!(found.translated_text, "B");
    let a = HistoryRecord::at_time("a", "A".to_string(), false, "mock", 1, 0);
    assert!(find_by_id(vec![a], "9-0").is_none());
}

#[test]
fn rotation_triggers() {
    assert!(should_rotate(0, 0));
    assert!(should_rotate(50, 10));
    assert!(!should_rotate(1, 10));
    assert!(should_rotate(1, 4 * 1024 * 1024));
    assert!(!should_rotate(49, 4 * 1024 * 1024 - 1));
}

#[test]
fn rotation_keeps_newest_records() {
    let content: String = (0..600).map(|i| format!("{i}\n")).collect();
    let rotated = rotated_content(&content);
    let lines: Vec<&str> = rotated.lines().collect();
    assert_eq!(lines.len(), 500);
    assert_eq!(lines[0], "100");
    assert_eq!(lines[499], "599");
    assert!(rotated.ends_with("599\n"));
    assert_eq!(rotated_content("\n\n"), "\n");
}

#[test]
fn rotation_respects_byte_budget() {
    let line = "x".repeat(1_000_000);
    let content = format!("{line}\n{line}\n{line}\nshort\n");
    let rotated = rotated_content(&content);
    assert_eq!(rotated, format!("{line}\n{line}\nshort\n"));
    assert!(rotated.len() <= 2 * 1024 * 1024);
}

#[test]
fn new_record_is_stamped_with_the_clock() {
    let r = HistoryRecord::new("s", "t".to_string(), false, "mock");
    assert!(r.timestamp_ms > 1_600_000_000_000);
    let (ms, nanos) = r.id.split_once('-').unwrap();
    assert_eq!(ms, r.timestamp_ms.to_string());
    assert!(u32::from_str_radix(nanos, 16).unwrap() < 1_000_000_000);
}

use std::time::Instant;

use fastapi_verified::output::mode::OutputMode;
use fastapi_verified::output::testing::{OutputEntry, OutputLevel, TestOutput};

fn entry(content: &str, raw: &str, level: OutputLevel) -> OutputEntry {
    OutputEntry {
        content: content.to_string(),
        timestamp: Instant::now(),
        level,
        component: Some("test".to_string()),
        raw_ansi: raw.to_string(),
    }
}

#[test]
fn captured_joins_entries_with_newlines() {
    let mut out = TestOutput::new(OutputMode::Plain);
    assert_eq!(out.terminal_width(), 80);
    assert_eq!(out.mode(), OutputMode::Plain);
    assert_eq!(out.captured(), "");
    out.push(entry("one", "\x1b[1mone\x1b[0m", OutputLevel::Info));
    out.push(entry("two", "two", OutputLevel::Error));
    assert_eq!(out.captured(), "one\ntwo");
    assert_eq!(out.captured_raw(), "\x1b[1mone\x1b[0m\ntwo");
}

#[test]
fn count_and_clear() {
    let mut out = TestOutput::with_width(OutputMode::Rich, 120);
    assert_eq!(out.terminal_width(), 120);
    out.push(entry("a", "a", OutputLevel::Warning));
    out.push(entry("b", "b", OutputLevel::Warning));
    out.push(entry("c", "c", OutputLevel::Success));
    assert_eq!(out.count_by_level(OutputLevel::Warning), 2);
    assert_eq!(out.count_by_level(OutputLevel::Debug), 0);
    let copies = out.entries();
    assert_eq!(copies.len(), 3);
    assert_eq!(copies[2].content, "c");
    assert_eq!(copies[0].component.as_deref(), Some("test"));
    out.clear();
    assert!(out.entries().is_empty());
    assert_eq!(out.captured(), "");
}

use fastapi_verified::output::mode::OutputMode;
use fastapi_verified::output::test_results::{
    progress_bar, TestCaseResult, TestModuleResult, TestReport, TestReportDisplay, TestStatus,
};
use fastapi_verified::output::testing::{assert_contains, assert_no_ansi};
use fastapi_verified::output::themes::FastApiTheme;

#[test]
fn renders_plain_report() {
    let module = TestModuleResult::new(
        "core::routing",
        vec![
            TestCaseResult::new("test_match", TestStatus::Pass).duration_ms(12),
            TestCaseResult::new("test_conflict", TestStatus::Fail).duration_ms(3).details("expected 2 routes, got 3"),
        ],
    );
    let report = TestReport::new(vec![module]);
    let display = TestReportDisplay::new(OutputMode::Plain);
    let output = display.render(&report);

    assert_contains(&output, "Test Results");
    assert_contains(&output, "Module: core::routing");
    assert_contains(&output, "PASS test_match");
    assert_contains(&output, "FAIL test_conflict");
    assert_contains(&output, "expected 2 routes");
    assert_contains(&output, "Summary:");
    assert_contains(&output, "Progress:");
    assert_no_ansi(&output);
}

#[test]
fn renders_tap_output() {
    let report = TestReport::new(vec![TestModuleResult::new(
        "module",
        vec![TestCaseResult::new("ok_case", TestStatus::Pass), TestCaseResult::new("skip_case", TestStatus::Skip)],
    )]);

    let tap = report.to_tap();
    assert_contains(&tap, "TAP version 13");
    assert_contains(&tap, "1..2");
    assert_contains(&tap, "ok 1 - module::ok_case");
    assert_contains(&tap, "ok 2 - module::skip_case # SKIP");
}

#[test]
fn plain_report_exact() {
    let report = TestReport::new(vec![])
        .module(
            TestModuleResult::new("a", vec![])
                .case(TestCaseResult::new("one", TestStatus::Pass).duration_ms(12))
                .case(TestCaseResult::new("two", TestStatus::Fail).details("boom"))
                .case(TestCaseResult::new("three", TestStatus::Skip).details("later")),
        )
        .module(TestModuleResult::new("b", vec![TestCaseResult::new("four", TestStatus::Pass).duration_ms(5)]));
    let out = TestReportDisplay::new(OutputMode::Plain).progress_width(8).render(&report);
    let expected = [
        "Test Results",
        "------------",
        "Module: a",
        "  PASS one (12ms)",
        "  FAIL two",
        "    -> boom",
        "  SKIP three",
        "",
        "Module: b",
        "  PASS four (5ms)",
        "",
        "Summary: 2 passed, 1 failed, 1 skipped (4 total) in 17ms",
        "Progress: [====!!--] 2/4 passed, 1 failed, 1 skipped",
    ]
    .join("\n");
    assert_eq!(out, expected);
    let c = report.counts();
    assert_eq!((c.total, c.passed, c.failed, c.skipped, c.duration_ms), (4, 2, 1, 1, Some(17)));
    let tap = report.to_tap();
    assert_eq!(
        tap,
        [
            "TAP version 13",
            "1..4",
            "ok 1 - a::one",
            "not ok 2 - a::two",
            "# boom",
            "ok 3 - a::three # SKIP",
            "# later",
            "ok 4 - b::four",
        ]
        .join("\n")
    );
}

#[test]
fn display_options_and_trailing_trim() {
    let report = TestReport::new(vec![TestModuleResult::new("m", vec![TestCaseResult::new("x", TestStatus::Pass).duration_ms(1)])]);
    let out = TestReportDisplay::new(OutputMode::Plain).hide_summary().hide_progress().hide_timings().title(None).render(&report);
    assert_eq!(out, "Module: m\n  PASS x");
    let empty = TestReportDisplay::new(OutputMode::Plain).render(&TestReport::new(vec![]));
    assert_eq!(empty, "Test Results\n------------\nSummary: 0 passed, 0 failed, 0 skipped (0 total)");
    let rich = TestReportDisplay::new(OutputMode::Rich).render(&report);
    assert!(rich.contains("✓"));
    assert!(rich.contains("\x1b["));
    assert_eq!(TestStatus::Skip.indicator(OutputMode::Rich), "↷");
    assert_eq!(TestStatus::Skip.indicator(OutputMode::Minimal), "SKIP");
    assert_eq!(TestStatus::Fail.label(), "FAIL");
}

#[test]
fn progress_bar_shares() {
    let t = FastApiTheme::default();
    assert_eq!(progress_bar(0, 0, 0, 0, 10, OutputMode::Plain, &t), "[no tests]");
    assert_eq!(progress_bar(1, 1, 1, 3, 3, OutputMode::Plain, &t), "[==!!----] 1/3 passed, 1 failed, 1 skipped");
    assert_eq!(progress_bar(3, 0, 0, 3, 8, OutputMode::Plain, &t), "[========] 3/3 passed");
    let ansi = progress_bar(1, 0, 0, 2, 8, OutputMode::Rich, &t);
    assert!(ansi.starts_with("[\x1b[38;2;"));
    assert!(ansi.ends_with("] 1/2 passed"));
}

use fastapi_verified::output::fixtures::{sample_middleware, sample_routes, sample_validation_errors};
use fastapi_verified::output::testing::{
    assert_contains, assert_contains_in_order, assert_has_ansi, assert_max_width, assert_no_ansi, assert_not_contains,
    strip_ansi_codes,
};

#[test]
fn test_strip_ansi_removes_codes() {
    let with_ansi = "\x1b[31mRed Text\x1b[0m";
    let stripped = strip_ansi_codes(with_ansi);
    assert_eq!(stripped, "Red Text");
}

#[test]
fn test_assert_no_ansi_passes_for_plain() {
    let plain = "Just plain text";
    assert_no_ansi(plain);
}

#[test]
#[should_panic(expected = "Found ANSI escape codes")]
fn test_assert_no_ansi_fails_for_rich() {
    let with_ansi = "\x1b[31mColored\x1b[0m";
    assert_no_ansi(with_ansi);
}

#[test]
fn test_assert_contains_in_order() {
    let output = "First line\nSecond line\nThird line";
    assert_contains_in_order(output, &["First", "Second", "Third"]);
}

#[test]
fn test_max_width_assertion() {
    let output = "Short\nAlso short";
    assert_max_width(output, 20);
}

#[test]
fn strip_keeps_text_without_escapes_and_other_checks() {
    assert_eq!(strip_ansi_codes("plain"), "plain");
    assert_eq!(strip_ansi_codes("\x1b[38;2;1;2;3mX\x1b[1m\x1b[0mY"), "XY");
    assert_contains("\x1b[1mbold\x1b[0m", "bold");
    assert_not_contains("\x1b[1mbold\x1b[0m", "1m");
    assert_has_ansi("\x1b[1mbold");
    assert_max_width("\x1b[1m12345\x1b[0m", 5);
}

#[test]
fn fixtures_hold_samples() {
    let routes = sample_routes();
    assert_eq!(routes.len(), 3);
    assert_eq!(routes[2].path, "/users/{id}");
    assert_eq!(routes[1].handler_name, Some("create_user"));
    let errors = sample_validation_errors();
    assert_eq!(errors[0].path, vec!["email"]);
    assert_eq!(errors[0].received, Some("not-an-email"));
    let mw = sample_middleware();
    assert_eq!(mw.len(), 2);
    assert!(mw[1].can_short_circuit);
    assert_eq!(mw[0].config_summary, Some("level=INFO"));
}

#[test]
fn strip_ansi_codes_drops_whole_sequences_only() {
    let input = "a\x1b[12;3mb\x1b[c\x1b[1\x1b[2Jd";
    assert_eq!(strip_ansi_codes(input), "ab\x1b[1d");
}

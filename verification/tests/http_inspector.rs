use fastapi_verified::duration::{format_duration, Duration};
use fastapi_verified::output::http_inspector::{RequestInfo, RequestInspector, ResponseInfo, ResponseInspector};
use fastapi_verified::output::mode::OutputMode;

fn sample_request() -> RequestInfo {
    RequestInfo::new("POST", "/api/users")
        .query("version=2")
        .http_version("HTTP/1.1")
        .header("Content-Type", "application/json")
        .header("Authorization", "Bearer token123")
        .header("X-Request-ID", "req-abc-123")
        .body_preview(r#"{"name": "Alice", "email": "alice@example.com"}"#, 48)
        .content_type("application/json")
        .parse_duration(Duration::from_micros(150))
        .client_ip("192.168.1.100")
        .request_id("req-abc-123")
}

fn sample_response() -> ResponseInfo {
    ResponseInfo::new(201)
        .reason("Created")
        .header("Content-Type", "application/json")
        .header("X-Request-ID", "req-abc-123")
        .header("Location", "/api/users/42")
        .body_preview(r#"{"id": 42, "name": "Alice"}"#, 27)
        .content_type("application/json")
        .response_time(Duration::from_millis(45))
}

#[test]
fn test_request_info_builder() {
    let info = sample_request();
    assert_eq!(info.method, "POST");
    assert_eq!(info.path, "/api/users");
    assert_eq!(info.query, Some("version=2".to_string()));
    assert_eq!(info.headers.len(), 3);
    assert!(info.body_preview.is_some());
}

#[test]
fn test_response_info_builder() {
    let info = sample_response();
    assert_eq!(info.status, 201);
    assert_eq!(info.reason, Some("Created".to_string()));
    assert_eq!(info.headers.len(), 3);
}

#[test]
fn test_request_inspector_plain() {
    let inspector = RequestInspector::new(OutputMode::Plain);
    let output = inspector.inspect(&sample_request());

    assert!(output.contains("HTTP Request"));
    assert!(output.contains("POST"));
    assert!(output.contains("/api/users?version=2"));
    assert!(output.contains("Content-Type: application/json"));
    assert!(output.contains("Authorization: Bearer"));
    assert!(!output.contains("\x1b["));
}

#[test]
fn test_request_inspector_rich_has_ansi() {
    let inspector = RequestInspector::new(OutputMode::Rich);
    let output = inspector.inspect(&sample_request());

    assert!(output.contains("\x1b["));
    assert!(output.contains("POST"));
}

#[test]
fn test_response_inspector_plain() {
    let inspector = ResponseInspector::new(OutputMode::Plain);
    let output = inspector.inspect(&sample_response());

    assert!(output.contains("HTTP Response"));
    assert!(output.contains("201"));
    assert!(output.contains("Created"));
    assert!(output.contains("Content-Type: application/json"));
    assert!(!output.contains("\x1b["));
}

#[test]
fn test_response_inspector_rich_has_ansi() {
    let inspector = ResponseInspector::new(OutputMode::Rich);
    let output = inspector.inspect(&sample_response());

    assert!(output.contains("\x1b["));
    assert!(output.contains("201"));
}

#[test]
fn test_response_default_reason() {
    let info = ResponseInfo::new(404);
    assert_eq!(info.default_reason(), "Not Found");

    let info = ResponseInfo::new(500);
    assert_eq!(info.default_reason(), "Internal Server Error");
}

#[test]
fn test_format_duration() {
    assert_eq!(format_duration(Duration::from_micros(500)), "500µs");
    assert_eq!(format_duration(Duration::from_micros(1500)), "1.50ms");
    assert_eq!(format_duration(Duration::from_secs(2)), "2.00s");
}

#[test]
fn request_plain_layout_exact() {
    let output = RequestInspector::new(OutputMode::Plain).inspect(&sample_request());
    let expected = [
        "=== HTTP Request ===",
        "POST /api/users?version=2 HTTP/1.1",
        "Client: 192.168.1.100",
        "Request-ID: req-abc-123",
        "Parse time: 150µs",
        "",
        "Headers:",
        "  Content-Type: application/json",
        "  Authorization: Bearer token123",
        "  X-Request-ID: req-abc-123",
        "",
        "Body (48 bytes, truncated):",
        r#"  {"name": "Alice", "email": "alice@example.com"}"#,
        "====================",
    ]
    .join("\n");
    assert_eq!(output, expected);
}

#[test]
fn response_plain_and_minimal_layouts() {
    let info = ResponseInfo::new(418).body_preview("abc", 10);
    assert!(info.body_truncated);
    let output = ResponseInspector::new(OutputMode::Plain).inspect(&info);
    let expected = ["=== HTTP Response ===", "HTTP/1.1 418 Unknown", "", "Body (10 bytes, truncated):", "  abc", "====================="]
        .join("\n");
    assert_eq!(output, expected);
    let output = ResponseInspector::new(OutputMode::Minimal).inspect(&sample_response());
    assert!(output.contains("✓ 201 Created"));
    assert!(output.contains("Headers (3):"));
    assert!(output.contains("Response time:\x1b[0m 45.00ms"));
}

#[test]
fn rich_headers_align_and_long_names_are_cut() {
    let info = RequestInfo::new("GET", "/")
        .header("A", "1")
        .header("X-A-Very-Long-Header-Name", "2")
        .body_preview("line one\r\nline two is long enough to be cut at thirty-seven bytes\n\n4\n5\n6\n7", 100);
    let output = RequestInspector::new(OutputMode::Rich).inspect(&info);
    assert!(output.contains("A                   \x1b[0m: 1"));
    assert!(output.contains("X-A-Very-Long-Hea...\x1b[0m: 2"));
    assert!(output.contains("\x1b[2mline one\x1b[0m"));
    assert!(output.contains("\x1b[2mline two is long enough to be cut at ...\x1b[0m"));
    assert!(output.contains("\x1b[2m5\x1b[0m"));
    assert!(!output.contains("\x1b[2m6\x1b[0m"));
    assert!(output.contains("(100 bytes, truncated)"));
    assert!(output.contains("Client") == false);
}

#[test]
fn cuts_cleanly_reports_mid_character_cuts() {
    let ok = RequestInfo::new("GET", "/").header("content-type", "x");
    assert!(ok.cuts_cleanly());
    let bad = RequestInfo::new("GET", "/").header("aaaaaaaaaaaaaaaa\u{20ac}\u{20ac}", "x");
    assert!(!bad.cuts_cleanly());
    let long_ascii = ResponseInfo::new(200).header("a-very-long-header-name-indeed", "x");
    assert!(long_ascii.cuts_cleanly());
}

use fastapi_verified::duration::{format_duration, Duration};
use fastapi_verified::output::mode::OutputMode;
use fastapi_verified::output::routing_debug::{
    CandidateRoute, ExtractedParams, MatchResult, MiddlewareInfo, RoutingDebug, RoutingDebugInfo,
};

fn sample_successful_routing() -> RoutingDebugInfo {
    RoutingDebugInfo::new("/api/users/42", "GET")
        .candidate(CandidateRoute::new("/api/health", MatchResult::PathMismatch).methods(&["GET"]).handler("health_check"))
        .candidate(
            CandidateRoute::new("/api/users", MatchResult::PathMismatch).methods(&["GET", "POST"]).handler("list_users"),
        )
        .candidate(
            CandidateRoute::new("/api/users/{id}", MatchResult::Matched)
                .methods(&["GET", "PUT", "DELETE"])
                .handler("get_user"),
        )
        .params(ExtractedParams::new().param("id", "42"))
        .middleware(MiddlewareInfo::new("RequestLogger", 1))
        .middleware(MiddlewareInfo::new("Auth", 2))
        .middleware(MiddlewareInfo::new("RateLimit", 3).route_specific(true))
        .routing_time(Duration::from_micros(45))
}

fn sample_404_routing() -> RoutingDebugInfo {
    RoutingDebugInfo::new("/api/nonexistent", "GET")
        .candidate(CandidateRoute::new("/api/users", MatchResult::PathMismatch).methods(&["GET"]).handler("list_users"))
        .candidate(CandidateRoute::new("/api/items", MatchResult::PathMismatch).methods(&["GET"]).handler("list_items"))
        .routing_time(Duration::from_micros(12))
}

fn sample_405_routing() -> RoutingDebugInfo {
    RoutingDebugInfo::new("/api/users", "DELETE")
        .candidate(
            CandidateRoute::new("/api/users", MatchResult::MethodMismatch)
                .methods(&["GET", "POST"])
                .handler("list_users")
                .partial_match(true),
        )
        .routing_time(Duration::from_micros(8))
}

#[test]
fn test_match_result_description() {
    assert_eq!(MatchResult::Matched.description(), "Matched");
    assert_eq!(MatchResult::PathMismatch.description(), "Path did not match");
    assert_eq!(
        MatchResult::ParamTypeMismatch {
            param_name: "id".to_string(),
            expected_type: "int".to_string(),
            actual_value: "abc".to_string(),
        }
        .description(),
        "Parameter 'id' expected int, got 'abc'"
    );
}

#[test]
fn test_routing_debug_plain_success() {
    let debug = RoutingDebug::new(OutputMode::Plain);
    let output = debug.format(&sample_successful_routing());

    assert!(output.contains("Routing Debug"));
    assert!(output.contains("GET /api/users/42"));
    assert!(output.contains("MATCHED"));
    assert!(output.contains("/api/users/{id}"));
    assert!(output.contains("id: 42"));
    assert!(output.contains("RequestLogger"));
    assert!(!output.contains("\x1b["));
}

#[test]
fn test_routing_debug_plain_404() {
    let debug = RoutingDebug::new(OutputMode::Plain);
    let output = debug.format(&sample_404_routing());

    assert!(output.contains("404 Not Found"));
    assert!(!output.contains("MATCHED"));
}

#[test]
fn test_routing_debug_plain_405() {
    let debug = RoutingDebug::new(OutputMode::Plain);
    let output = debug.format(&sample_405_routing());

    assert!(output.contains("405 Method Not Allowed"));
    assert!(output.contains("[PARTIAL]"));
}

#[test]
fn test_routing_debug_rich_has_ansi() {
    let debug = RoutingDebug::new(OutputMode::Rich);
    let output = debug.format(&sample_successful_routing());

    assert!(output.contains("\x1b["));
    assert!(output.contains("✓ Matched"));
}

#[test]
fn test_extracted_params_builder() {
    let params = ExtractedParams::new().param("id", "42").param("name", "alice");

    assert_eq!(params.params.len(), 2);
    assert!(!params.is_empty());
}

#[test]
fn test_candidate_route_builder() {
    let candidate = CandidateRoute::new("/api/users/{id}", MatchResult::Matched)
        .methods(&["GET", "PUT"])
        .handler("get_user")
        .partial_match(false);

    assert_eq!(candidate.pattern, "/api/users/{id}");
    assert_eq!(candidate.methods, vec!["GET", "PUT"]);
    assert!(candidate.result.is_match());
}

#[test]
fn test_middleware_info_builder() {
    let mw = MiddlewareInfo::new("Auth", 1).route_specific(true);

    assert_eq!(mw.name, "Auth");
    assert_eq!(mw.order, 1);
    assert!(mw.route_specific);
}

#[test]
fn plain_layout_exact() {
    let debug = RoutingDebug::new(OutputMode::Plain);
    let output = debug.format(&sample_successful_routing());
    let expected = [
        "=== Routing Debug ===",
        "Request: GET /api/users/42",
        "Routing time: 45µs",
        "",
        "Result: MATCHED -> /api/users/{id}",
        "",
        "Candidates considered:",
        "  [SKIP] /api/health [GET]",
        "        Reason: Path did not match",
        "  [SKIP] /api/users [GET, POST]",
        "        Reason: Path did not match",
        "  [MATCH] /api/users/{id} [GET, PUT, DELETE]",
        "",
        "Extracted parameters:",
        "  id: 42",
        "",
        "Middleware stack:",
        "  1. RequestLogger (global)",
        "  2. Auth (global)",
        "  3. RateLimit (route)",
        "=====================",
    ]
    .join("\n");
    assert_eq!(output, expected);
}

#[test]
fn rich_405_lists_allowed_methods_and_reasons() {
    let debug = RoutingDebug::new(OutputMode::Rich);
    let output = debug.format(&sample_405_routing());
    assert!(output.contains("⚠ 405 Method Not Allowed"));
    assert!(output.contains("Allowed:\x1b[0m GET, POST"));
    assert!(output.contains("Method not allowed"));
    assert!(output.contains("[GET|POST]"));
    assert!(output.contains("(1)"));
    assert!(output.starts_with("\x1b[38;2;"));
    let lines: Vec<&str> = output.lines().collect();
    assert!(lines[0].contains("┌─────────────────────────────────────────────┐"));
    assert!(lines.last().unwrap().contains("└─────────────────────────────────────────────┘"));
}

#[test]
fn minimal_layout() {
    let debug = RoutingDebug::new(OutputMode::Minimal);
    let output = debug.format(&sample_404_routing());
    assert!(output.contains("✗ 404 Not Found"));
    assert!(output.contains("Routed in 12µs"));
    assert!(!output.contains("Candidates"));
    let output = debug.format(&sample_successful_routing());
    assert!(output.contains("✓ Matched:\x1b[0m /api/users/{id}"));
    assert!(output.contains("Parameters:"));
    let mut show_less = RoutingDebug::new(OutputMode::Plain);
    show_less.show_all_candidates = false;
    show_less.show_middleware = false;
    let output = show_less.format(&sample_successful_routing());
    assert!(!output.contains("Candidates considered:"));
    assert!(!output.contains("Middleware stack:"));
}

#[test]
fn duration_formats() {
    assert_eq!(format_duration(Duration::from_micros(500)), "500µs");
    assert_eq!(format_duration(Duration::from_micros(1500)), "1.50ms");
    assert_eq!(format_duration(Duration::from_micros(1005)), "1.00ms");
    assert_eq!(format_duration(Duration::from_secs(2)), "2.00s");
    assert_eq!(format_duration(Duration::from_millis(45)), "45.00ms");
    assert_eq!(format_duration(Duration::from_micros(2_070_000)), "2.07s");
}

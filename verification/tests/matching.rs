use fastapi_verified::matching::{is_valid_uuid, AllowedMethods, RouteLookup, RouteMatch};
use fastapi_verified::method::Method;

fn sample() -> RouteMatch<'static> {
    RouteMatch {
        params: vec![
            ("id", "42"),
            ("neg", "-7"),
            ("big", "99999999999"),
            ("name", "alice"),
            ("uuid", "550e8400-e29b-41d4-a716-446655440000"),
            ("id", "shadowed"),
        ],
    }
}

#[test]
fn get_param_returns_first_match() {
    let m = sample();
    assert_eq!(m.get_param("id"), Some("42"));
    assert_eq!(m.get_param("name"), Some("alice"));
    assert_eq!(m.get_param("missing"), None);
}

#[test]
fn get_param_int_parses_signed_values() {
    let m = sample();
    assert_eq!(m.get_param_int("id").unwrap().unwrap(), 42);
    assert_eq!(m.get_param_int("neg").unwrap().unwrap(), -7);
    assert!(m.get_param_int("name").unwrap().is_err());
    assert!(m.get_param_int("missing").is_none());
}

#[test]
fn get_param_i32_overflow_is_error() {
    let m = sample();
    assert_eq!(m.get_param_i32("id").unwrap().unwrap(), 42);
    assert!(m.get_param_i32("big").unwrap().is_err());
    assert_eq!(m.get_param_int("big").unwrap().unwrap(), 99_999_999_999);
}

#[test]
fn unsigned_params_reject_negative() {
    let m = sample();
    assert_eq!(m.get_param_u64("id").unwrap().unwrap(), 42);
    assert!(m.get_param_u64("neg").unwrap().is_err());
    assert_eq!(m.get_param_u32("id").unwrap().unwrap(), 42);
    assert!(m.get_param_u32("big").unwrap().is_err());
    assert!(m.get_param_u32("missing").is_none());
}

#[test]
fn uuid_params() {
    let m = sample();
    assert_eq!(m.is_param_uuid("uuid"), Some(true));
    assert_eq!(m.is_param_uuid("name"), Some(false));
    assert_eq!(m.is_param_uuid("missing"), None);
}

#[test]
fn uuid_shapes() {
    assert!(is_valid_uuid("550e8400-e29b-41d4-a716-446655440000"));
    assert!(is_valid_uuid("550E8400-E29B-41D4-A716-446655440000"));
    assert!(!is_valid_uuid("550e8400e29b41d4a716446655440000"));
    assert!(!is_valid_uuid("550e8400-e29b-41d4-a716-44665544000g"));
    assert!(!is_valid_uuid("550e8400-e29b-41d4-a716-4466554400001"));
    assert!(!is_valid_uuid(""));
}

#[test]
fn counts_and_listing() {
    let m = sample();
    assert_eq!(m.param_count(), 6);
    assert!(!m.is_empty());
    let listed = m.iter();
    assert_eq!(listed.len(), 6);
    assert_eq!(listed[0], ("id", "42"));
    assert_eq!(listed[5], ("id", "shadowed"));
    let empty = RouteMatch { params: Vec::new() };
    assert!(empty.is_empty());
    assert_eq!(empty.param_count(), 0);
}

#[test]
fn allowed_methods_adds_head_and_sorts() {
    let a = AllowedMethods::new(vec![Method::Post, Method::Get, Method::Post]);
    assert_eq!(a.methods(), &[Method::Get, Method::Head, Method::Post]);
    assert!(a.contains(Method::Head));
    assert!(!a.contains(Method::Delete));
    assert_eq!(a.header_value(), "GET, HEAD, POST");
}

#[test]
fn allowed_methods_without_get_has_no_head() {
    let a = AllowedMethods::new(vec![Method::Delete, Method::Put]);
    assert_eq!(a.methods(), &[Method::Put, Method::Delete]);
    assert!(!a.contains(Method::Head));
    assert_eq!(a.header_value(), "PUT, DELETE");
}

#[test]
fn allowed_methods_empty() {
    let a = AllowedMethods::new(Vec::new());
    assert!(a.methods().is_empty());
    assert_eq!(a.header_value(), "");
}

#[test]
fn route_lookup_variants() {
    let m = RouteLookup::Match(RouteMatch { params: vec![("id", "1")] });
    match m {
        RouteLookup::Match(rm) => assert_eq!(rm.get_param("id"), Some("1")),
        _ => panic!("expected a match"),
    }
    let n = RouteLookup::MethodNotAllowed { allowed: AllowedMethods::new(vec![Method::Get]) };
    match n {
        RouteLookup::MethodNotAllowed { allowed } => assert_eq!(allowed.header_value(), "GET, HEAD"),
        _ => panic!("expected method not allowed"),
    }
    assert!(matches!(RouteLookup::NotFound, RouteLookup::NotFound));
}

//! Fixtures for output tests: sample routes, validation errors, middleware.
use vstd::prelude::*;

verus! {

/// A sample route.
#[derive(Debug, Clone)]
pub struct FixtureRoute {
    /// HTTP method.
    pub method: &'static str,
    /// Route path.
    pub path: &'static str,
    /// Handler name.
    pub handler_name: Option<&'static str>,
}

/// Three sample routes: listing, creating and reading users.
pub fn sample_routes() -> (v: Vec<FixtureRoute>)
    ensures
        v@.len() == 3,
        v@[0].method@ == "GET"@ && v@[0].path@ == "/users"@,
        v@[0].handler_name matches Some(h) && h@ == "list_users"@,
        v@[1].method@ == "POST"@ && v@[1].path@ == "/users"@,
        v@[1].handler_name matches Some(h) && h@ == "create_user"@,
        v@[2].method@ == "GET"@ && v@[2].path@ == "/users/{id}"@,
        v@[2].handler_name matches Some(h) && h@ == "get_user"@,
{
    vec![
        FixtureRoute { method: "GET", path: "/users", handler_name: Some("list_users") },
        FixtureRoute { method: "POST", path: "/users", handler_name: Some("create_user") },
        FixtureRoute { method: "GET", path: "/users/{id}", handler_name: Some("get_user") },
    ]
}

/// A sample validation error.
#[derive(Debug, Clone)]
pub struct FixtureValidationError {
    /// Path to the invalid field.
    pub path: Vec<&'static str>,
    /// Error message.
    pub message: &'static str,
    /// Error code.
    pub code: &'static str,
    /// What was expected.
    pub expected: Option<&'static str>,
    /// What was received.
    pub received: Option<&'static str>,
}

/// One sample validation error: an invalid email.
pub fn sample_validation_errors() -> (v: Vec<FixtureValidationError>)
    ensures
        v@.len() == 1,
        v@[0].path@.len() == 1 && v@[0].path@[0]@ == "email"@,
        v@[0].message@ == "Invalid email format"@,
        v@[0].code@ == "email"@,
        v@[0].expected matches Some(e) && e@ == "valid email address"@,
        v@[0].received matches Some(r) && r@ == "not-an-email"@,
{
    vec![FixtureValidationError {
        path: vec!["email"],
        message: "Invalid email format",
        code: "email",
        expected: Some("valid email address"),
        received: Some("not-an-email"),
    }]
}

/// A sample middleware.
#[derive(Debug, Clone)]
pub struct FixtureMiddlewareInfo {
    /// Middleware name.
    pub name: &'static str,
    /// Type name for display.
    pub type_path: &'static str,
    /// Registration order.
    pub order: usize,
    /// It can answer before the handler runs.
    pub can_short_circuit: bool,
    /// Configuration summary.
    pub config_summary: Option<&'static str>,
}

/// A sample middleware stack: a request logger, then authentication.
pub fn sample_middleware() -> (v: Vec<FixtureMiddlewareInfo>)
    ensures
        v@.len() == 2,
        v@[0].name@ == "RequestLogger"@ && v@[0].type_path@ == "fastapi::middleware::RequestLogger"@,
        v@[0].order == 0 && !v@[0].can_short_circuit,
        v@[0].config_summary matches Some(c) && c@ == "level=INFO"@,
        v@[1].name@ == "Auth"@ && v@[1].type_path@ == "fastapi::middleware::Auth"@,
        v@[1].order == 1 && v@[1].can_short_circuit,
        v@[1].config_summary matches Some(c) && c@ == "scheme=Bearer"@,
{
    vec![
        FixtureMiddlewareInfo {
            name: "RequestLogger",
            type_path: "fastapi::middleware::RequestLogger",
            order: 0,
            can_short_circuit: false,
            config_summary: Some("level=INFO"),
        },
        FixtureMiddlewareInfo {
            name: "Auth",
            type_path: "fastapi::middleware::Auth",
            order: 1,
            can_short_circuit: true,
            config_summary: Some("scheme=Bearer"),
        },
    ]
}

} // verus!

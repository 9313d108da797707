//! Routing debug output: which routes were considered, why they matched or
//! not, the extracted parameters and the middleware that applies.
use vstd::prelude::*;
use crate::duration::{duration_text, format_duration, Duration};
use crate::output::mode::OutputMode;
use crate::output::shutdown_progress::{fg, ANSI_RESET};
use crate::output::themes::{ansi_rgb, fastapi_palette, method_color, Color, FastApiTheme};
use crate::text::unicode_uppercase;
use crate::query::strs_view;
use crate::text::{
    append_lines, decimal, flatten, join_strings, join_with, push_decimal, push_line, push_str, strings_view,
};

verus! {

/// The escape for bold text.
pub const ANSI_BOLD: &'static str = "\x1b[1m";

/// The result of matching one route.
#[derive(Debug, Clone, PartialEq, Eq)]
pub enum MatchResult {
    /// The route matched.
    Matched,
    /// The path did not match.
    PathMismatch,
    /// The method is not allowed.
    MethodMismatch,
    /// A parameter did not have the expected type.
    ParamTypeMismatch { param_name: String, expected_type: String, actual_value: String },
    /// A guard refused the request.
    GuardFailed { guard_name: String },
}

pub open spec fn is_matched(r: MatchResult) -> bool {
    r is Matched
}

/// The human-readable description of a result.
pub open spec fn match_description(r: MatchResult) -> Seq<char> {
    match r {
        MatchResult::Matched => "Matched"@,
        MatchResult::PathMismatch => "Path did not match"@,
        MatchResult::MethodMismatch => "Method not allowed"@,
        MatchResult::ParamTypeMismatch { param_name, expected_type, actual_value } => "Parameter '"@
            + param_name@ + "' expected "@ + expected_type@ + ", got '"@ + actual_value@ + "'"@,
        MatchResult::GuardFailed { guard_name } => "Guard '"@ + guard_name@ + "' failed"@,
    }
}

impl MatchResult {
    /// A human-readable description of the result.
    pub fn description(&self) -> (s: String)
        ensures
            s@ == match_description(*self),
    {
        match self {
            MatchResult::Matched => String::from_str("Matched"),
            MatchResult::PathMismatch => String::from_str("Path did not match"),
            MatchResult::MethodMismatch => String::from_str("Method not allowed"),
            MatchResult::ParamTypeMismatch { param_name, expected_type, actual_value } => {
                let mut s = String::from_str("Parameter '");
                push_str(&mut s, param_name.as_str());
                push_str(&mut s, "' expected ");
                push_str(&mut s, expected_type.as_str());
                push_str(&mut s, ", got '");
                push_str(&mut s, actual_value.as_str());
                push_str(&mut s, "'");
                assert(s@ =~= match_description(*self));
                s
            },
            MatchResult::GuardFailed { guard_name } => {
                let mut s = String::from_str("Guard '");
                push_str(&mut s, guard_name.as_str());
                push_str(&mut s, "' failed");
                assert(s@ =~= match_description(*self));
                s
            },
        }
    }

    /// The route matched.
    pub fn is_match(&self) -> (r: bool)
        ensures
            r == is_matched(*self),
    {
        match self {
            MatchResult::Matched => true,
            _ => false,
        }
    }
}

/// A route that was considered.
#[derive(Debug, Clone)]
pub struct CandidateRoute {
    /// Route pattern (e.g. "/users/{id}").
    pub pattern: String,
    /// Allowed HTTP methods.
    pub methods: Vec<String>,
    /// Handler function name.
    pub handler: Option<String>,
    /// Match result.
    pub result: MatchResult,
    /// The path matched but the method did not.
    pub partial_match: bool,
}

fn strings_of(items: &[&str]) -> (v: Vec<String>)
    ensures
        strings_view(v@) == strs_view(items@),
{
    let mut v: Vec<String> = Vec::new();
    let mut i: usize = 0;
    while i < items.len()
        invariant
            i <= items@.len(),
            strings_view(v@) == strs_view(items@.take(i as int)),
        decreases items@.len() - i,
    {
        push_line(&mut v, String::from_str(items[i]));
        i += 1;
        assert(strs_view(items@.take(i as int)) =~= strs_view(items@.take(i - 1)).push(items@[i - 1]@));
    }
    assert(items@.take(items@.len() as int) =~= items@);
    v
}

impl CandidateRoute {
    /// A candidate with no methods, no handler and no partial match.
    pub fn new(pattern: &str, result: MatchResult) -> (c: Self)
        ensures
            c.pattern@ == pattern@,
            c.methods@.len() == 0,
            c.handler is None,
            c.result == result,
            !c.partial_match,
    {
        CandidateRoute { pattern: String::from_str(pattern), methods: Vec::new(), handler: None, result, partial_match: false }
    }

    /// Sets the allowed methods.
    pub fn methods(self, methods: &[&str]) -> (c: Self)
        ensures
            strings_view(c.methods@) == strs_view(methods@),
            c.pattern == self.pattern,
            c.handler == self.handler,
            c.result == self.result,
            c.partial_match == self.partial_match,
    {
        CandidateRoute { methods: strings_of(methods), ..self }
    }

    /// Sets the handler name.
    pub fn handler(self, handler: &str) -> (c: Self)
        ensures
            c.handler matches Some(h) && h@ == handler@,
            c.pattern == self.pattern,
            c.methods == self.methods,
            c.result == self.result,
            c.partial_match == self.partial_match,
    {
        CandidateRoute { handler: Some(String::from_str(handler)), ..self }
    }

    /// Marks a partial match.
    pub fn partial_match(self, partial: bool) -> (c: Self)
        ensures
            c == (CandidateRoute { partial_match: partial, ..self }),
    {
        CandidateRoute { partial_match: partial, ..self }
    }
}

/// Extracted path parameters.
#[derive(Debug, Clone)]
pub struct ExtractedParams {
    /// Name and value of each parameter.
    pub params: Vec<(String, String)>,
}

pub open spec fn pairs_of(p: Seq<(String, String)>) -> Seq<(Seq<char>, Seq<char>)> {
    p.map_values(|x: (String, String)| (x.0@, x.1@))
}

impl ExtractedParams {
    pub fn new() -> (p: Self)
        ensures
            p.params@.len() == 0,
    {
        ExtractedParams { params: Vec::new() }
    }

    /// Adds a parameter.
    pub fn param(self, name: &str, value: &str) -> (p: Self)
        ensures
            pairs_of(p.params@) == pairs_of(self.params@).push((name@, value@)),
    {
        let mut params = self.params;
        let ghost before = params@;
        params.push((String::from_str(name), String::from_str(value)));
        assert(pairs_of(params@) =~= pairs_of(before).push((name@, value@)));
        ExtractedParams { params }
    }

    pub fn is_empty(&self) -> (r: bool)
        ensures
            r == (self.params@.len() == 0),
    {
        self.params.len() == 0
    }
}

impl Default for ExtractedParams {
    fn default() -> (p: Self)
        ensures
            p.params@.len() == 0,
    {
        Self::new()
    }
}

/// A middleware that will be applied.
#[derive(Debug, Clone)]
pub struct MiddlewareInfo {
    /// Middleware name.
    pub name: String,
    /// Applies to this route only.
    pub route_specific: bool,
    /// Position in the stack.
    pub order: usize,
}

impl MiddlewareInfo {
    pub fn new(name: &str, order: usize) -> (m: Self)
        ensures
            m.name@ == name@,
            !m.route_specific,
            m.order == order,
    {
        MiddlewareInfo { name: String::from_str(name), route_specific: false, order }
    }

    /// Marks the middleware route-specific.
    pub fn route_specific(self, specific: bool) -> (m: Self)
        ensures
            m == (MiddlewareInfo { route_specific: specific, ..self }),
    {
        MiddlewareInfo { route_specific: specific, ..self }
    }
}

/// Everything known about one routing decision.
#[derive(Debug, Clone)]
pub struct RoutingDebugInfo {
    /// The request path.
    pub request_path: String,
    /// The request method.
    pub request_method: String,
    /// The routes considered.
    pub candidates: Vec<CandidateRoute>,
    /// The pattern of the matched route.
    pub matched_route: Option<String>,
    /// Extracted path parameters.
    pub extracted_params: ExtractedParams,
    /// Middleware that will be applied.
    pub middleware: Vec<MiddlewareInfo>,
    /// Time taken to route.
    pub routing_time: Option<Duration>,
    /// Some route matched the path but not the method (a 405).
    pub has_partial_matches: bool,
}

impl RoutingDebugInfo {
    pub fn new(path: &str, method: &str) -> (i: Self)
        ensures
            i.request_path@ == path@,
            i.request_method@ == method@,
            i.candidates@.len() == 0,
            i.matched_route is None,
            i.extracted_params.params@.len() == 0,
            i.middleware@.len() == 0,
            i.routing_time is None,
            !i.has_partial_matches,
    {
        RoutingDebugInfo {
            request_path: String::from_str(path),
            request_method: String::from_str(method),
            candidates: Vec::new(),
            matched_route: None,
            extracted_params: ExtractedParams::new(),
            middleware: Vec::new(),
            routing_time: None,
            has_partial_matches: false,
        }
    }

    /// Adds a candidate: a partial match marks the decision as a 405, and a
    /// matching candidate becomes the matched route.
    pub fn candidate(self, candidate: CandidateRoute) -> (i: Self)
        ensures
            i.candidates@ == self.candidates@.push(candidate),
            i.has_partial_matches == (self.has_partial_matches || candidate.partial_match),
            is_matched(candidate.result) ==> (i.matched_route matches Some(m) && m@ == candidate.pattern@),
            !is_matched(candidate.result) ==> i.matched_route == self.matched_route,
            i.request_path == self.request_path,
            i.request_method == self.request_method,
            i.extracted_params == self.extracted_params,
            i.middleware == self.middleware,
            i.routing_time == self.routing_time,
    {
        let mut info = self;
        if candidate.partial_match {
            info.has_partial_matches = true;
        }
        if candidate.result.is_match() {
            info.matched_route = Some(candidate.pattern.clone());
        }
        info.candidates.push(candidate);
        info
    }

    /// Sets the extracted parameters.
    pub fn params(self, params: ExtractedParams) -> (i: Self)
        ensures
            i == (RoutingDebugInfo { extracted_params: params, ..self }),
    {
        RoutingDebugInfo { extracted_params: params, ..self }
    }

    /// Adds a middleware.
    pub fn middleware(self, mw: MiddlewareInfo) -> (i: Self)
        ensures
            i.middleware@ == self.middleware@.push(mw),
            i == (RoutingDebugInfo { middleware: i.middleware, ..self }),
    {
        let mut info = self;
        info.middleware.push(mw);
        info
    }

    /// Sets the routing time.
    pub fn routing_time(self, duration: Duration) -> (i: Self)
        ensures
            i == (RoutingDebugInfo { routing_time: Some(duration), ..self }),
    {
        RoutingDebugInfo { routing_time: Some(duration), ..self }
    }

    /// A route matched.
    pub fn is_matched(&self) -> (r: bool)
        ensures
            r == self.matched_route is Some,
    {
        self.matched_route.is_some()
    }
}

/// Formats routing decisions.
#[derive(Debug, Clone)]
pub struct RoutingDebug {
    mode: OutputMode,
    theme: FastApiTheme,
    /// Show every candidate.
    pub show_all_candidates: bool,
    /// Show the middleware stack.
    pub show_middleware: bool,
}

/// The settings of a [`RoutingDebug`].
pub struct RoutingDebugView {
    pub mode: OutputMode,
    pub theme: FastApiTheme,
    pub show_all_candidates: bool,
    pub show_middleware: bool,
}

impl View for RoutingDebug {
    type V = RoutingDebugView;

    closed spec fn view(&self) -> RoutingDebugView {
        RoutingDebugView {
            mode: self.mode,
            theme: self.theme,
            show_all_candidates: self.show_all_candidates,
            show_middleware: self.show_middleware,
        }
    }
}

// ---------------------------------------------------------------------------
// Plain layout
// ---------------------------------------------------------------------------

pub open spec fn opt_lines(cond: bool, ls: Seq<Seq<char>>) -> Seq<Seq<char>> {
    if cond { ls } else { Seq::empty() }
}

pub open spec fn plain_result_line(info: RoutingDebugInfo) -> Seq<char> {
    match info.matched_route {
        Some(m) => "Result: MATCHED -> "@ + m@,
        None => if info.has_partial_matches {
            "Result: 405 Method Not Allowed"@
        } else {
            "Result: 404 Not Found"@
        },
    }
}

pub open spec fn plain_candidate_lines(c: CandidateRoute) -> Seq<Seq<char>> {
    let status = if is_matched(c.result) {
        "[MATCH]"@
    } else if c.partial_match {
        "[PARTIAL]"@
    } else {
        "[SKIP]"@
    };
    seq!["  "@ + status + " "@ + c.pattern@ + " ["@ + join_with(strings_view(c.methods@), ", "@) + "]"@]
        + opt_lines(!is_matched(c.result), seq!["        Reason: "@ + match_description(c.result)])
}

pub open spec fn plain_param_line(p: (String, String)) -> Seq<char> {
    "  "@ + p.0@ + ": "@ + p.1@
}

pub open spec fn plain_middleware_line(m: MiddlewareInfo) -> Seq<char> {
    "  "@ + decimal(m.order as nat) + ". "@ + m.name@ + " "@ + (if m.route_specific { "(route)"@ } else { "(global)"@ })
}

pub open spec fn plain_lines(d: RoutingDebugView, info: RoutingDebugInfo) -> Seq<Seq<char>> {
    seq!["=== Routing Debug ==="@, "Request: "@ + info.request_method@ + " "@ + info.request_path@]
        + (match info.routing_time {
        Some(t) => seq!["Routing time: "@ + duration_text(t@)],
        None => Seq::empty(),
    }) + seq![Seq::<char>::empty(), plain_result_line(info)] + opt_lines(
        d.show_all_candidates && info.candidates@.len() > 0,
        seq![Seq::<char>::empty(), "Candidates considered:"@] + flatten(info.candidates@.map_values(|c: CandidateRoute| plain_candidate_lines(c))),
    ) + opt_lines(
        info.extracted_params.params@.len() > 0,
        seq![Seq::<char>::empty(), "Extracted parameters:"@] + info.extracted_params.params@.map_values(|p: (String, String)| plain_param_line(p)),
    ) + opt_lines(
        d.show_middleware && info.middleware@.len() > 0,
        seq![Seq::<char>::empty(), "Middleware stack:"@] + info.middleware@.map_values(|m: MiddlewareInfo| plain_middleware_line(m)),
    ) + seq!["====================="@]
}

fn line_of(s: &str) -> (r: String)
    ensures
        r@ == s@,
{
    String::from_str(s)
}

fn plain_candidate(c: &CandidateRoute) -> (v: Vec<String>)
    ensures
        strings_view(v@) == plain_candidate_lines(*c),
{
    let mut v: Vec<String> = Vec::new();
    let status = if c.result.is_match() {
        "[MATCH]"
    } else if c.partial_match {
        "[PARTIAL]"
    } else {
        "[SKIP]"
    };
    let mut l = String::new();
    push_str(&mut l, "  ");
    push_str(&mut l, status);
    push_str(&mut l, " ");
    push_str(&mut l, c.pattern.as_str());
    push_str(&mut l, " [");
    let methods = join_strings(&c.methods, ", ");
    push_str(&mut l, methods.as_str());
    push_str(&mut l, "]");
    push_line(&mut v, l);
    if !c.result.is_match() {
        let mut r = String::from_str("        Reason: ");
        let d = c.result.description();
        push_str(&mut r, d.as_str());
        push_line(&mut v, r);
    }
    assert(strings_view(v@) =~= plain_candidate_lines(*c));
    v
}

/// The lines of each candidate, one candidate after another.
fn each_candidate(cs: &Vec<CandidateRoute>, rich: bool, d: &RoutingDebug) -> (v: Vec<String>)
    ensures
        !rich ==> strings_view(v@) == flatten(cs@.map_values(|c: CandidateRoute| plain_candidate_lines(c))),
        rich ==> strings_view(v@) == flatten(cs@.map_values(|c: CandidateRoute| rich_candidate_lines(d@, c))),
{
    let mut v: Vec<String> = Vec::new();
    let mut i: usize = 0;
    while i < cs.len()
        invariant
            i <= cs@.len(),
            !rich ==> strings_view(v@) == flatten(cs@.take(i as int).map_values(|c: CandidateRoute| plain_candidate_lines(c))),
            rich ==> strings_view(v@) == flatten(cs@.take(i as int).map_values(|c: CandidateRoute| rich_candidate_lines(d@, c))),
        decreases cs@.len() - i,
    {
        let more = if rich { d.rich_candidate(&cs[i]) } else { plain_candidate(&cs[i]) };
        append_lines(&mut v, more);
        i += 1;
        assert(cs@.take(i as int).map_values(|c: CandidateRoute| plain_candidate_lines(c)).drop_last()
            =~= cs@.take(i - 1).map_values(|c: CandidateRoute| plain_candidate_lines(c)));
        assert(cs@.take(i as int).map_values(|c: CandidateRoute| rich_candidate_lines(d@, c)).drop_last()
            =~= cs@.take(i - 1).map_values(|c: CandidateRoute| rich_candidate_lines(d@, c)));
    }
    assert(cs@.take(cs@.len() as int) =~= cs@);
    v
}

fn plain_params(ps: &Vec<(String, String)>) -> (v: Vec<String>)
    ensures
        strings_view(v@) == ps@.map_values(|p: (String, String)| plain_param_line(p)),
{
    let mut v: Vec<String> = Vec::new();
    let mut i: usize = 0;
    while i < ps.len()
        invariant
            i <= ps@.len(),
            strings_view(v@) == ps@.take(i as int).map_values(|p: (String, String)| plain_param_line(p)),
        decreases ps@.len() - i,
    {
        let mut l = String::from_str("  ");
        push_str(&mut l, ps[i].0.as_str());
        push_str(&mut l, ": ");
        push_str(&mut l, ps[i].1.as_str());
        push_line(&mut v, l);
        i += 1;
        assert(strings_view(v@) =~= ps@.take(i as int).map_values(|p: (String, String)| plain_param_line(p)));
    }
    assert(ps@.take(ps@.len() as int) =~= ps@);
    v
}

fn plain_middleware(ms: &Vec<MiddlewareInfo>) -> (v: Vec<String>)
    ensures
        strings_view(v@) == ms@.map_values(|m: MiddlewareInfo| plain_middleware_line(m)),
{
    let mut v: Vec<String> = Vec::new();
    let mut i: usize = 0;
    while i < ms.len()
        invariant
            i <= ms@.len(),
            strings_view(v@) == ms@.take(i as int).map_values(|m: MiddlewareInfo| plain_middleware_line(m)),
        decreases ms@.len() - i,
    {
        let m = &ms[i];
        let mut l = String::from_str("  ");
        push_decimal(&mut l, m.order as u64);
        push_str(&mut l, ". ");
        push_str(&mut l, m.name.as_str());
        push_str(&mut l, " ");
        push_str(&mut l, if m.route_specific { "(route)" } else { "(global)" });
        push_line(&mut v, l);
        i += 1;
        assert(strings_view(v@) =~= ms@.take(i as int).map_values(|m: MiddlewareInfo| plain_middleware_line(m)));
    }
    assert(ms@.take(ms@.len() as int) =~= ms@);
    v
}

impl RoutingDebug {
    #[verifier::rlimit(60)]
    fn format_plain(&self, info: &RoutingDebugInfo) -> (s: String)
        ensures
            s@ == join_with(plain_lines(self@, *info), "\n"@),
    {
        let mut lines: Vec<String> = Vec::new();
        assert(strings_view(lines@) =~= Seq::<Seq<char>>::empty());
        push_line(&mut lines, line_of("=== Routing Debug ==="));
        let mut l = String::from_str("Request: ");
        push_str(&mut l, info.request_method.as_str());
        push_str(&mut l, " ");
        push_str(&mut l, info.request_path.as_str());
        push_line(&mut lines, l);
        if let Some(t) = info.routing_time {
            let mut l = String::from_str("Routing time: ");
            let f = format_duration(t);
            push_str(&mut l, f.as_str());
            push_line(&mut lines, l);
        }
        push_line(&mut lines, String::new());
        let result = match &info.matched_route {
            Some(m) => {
                let mut l = String::from_str("Result: MATCHED -> ");
                push_str(&mut l, m.as_str());
                l
            },
            None => if info.has_partial_matches {
                line_of("Result: 405 Method Not Allowed")
            } else {
                line_of("Result: 404 Not Found")
            },
        };
        push_line(&mut lines, result);
        let ghost head = strings_view(lines@);
        assert(head =~= seq!["=== Routing Debug ==="@, "Request: "@ + info.request_method@ + " "@ + info.request_path@]
            + (match info.routing_time {
            Some(t) => seq!["Routing time: "@ + duration_text(t@)],
            None => Seq::empty(),
        }) + seq![Seq::<char>::empty(), plain_result_line(*info)]);
        if self.show_all_candidates && info.candidates.len() > 0 {
            push_line(&mut lines, String::new());
            push_line(&mut lines, line_of("Candidates considered:"));
            append_lines(&mut lines, each_candidate(&info.candidates, false, self));
        }
        let ghost after_candidates = strings_view(lines@);
        assert(after_candidates =~= head + opt_lines(
            self@.show_all_candidates && info.candidates@.len() > 0,
            seq![Seq::<char>::empty(), "Candidates considered:"@] + flatten(info.candidates@.map_values(|c: CandidateRoute| plain_candidate_lines(c))),
        ));
        if info.extracted_params.params.len() > 0 {
            push_line(&mut lines, String::new());
            push_line(&mut lines, line_of("Extracted parameters:"));
            append_lines(&mut lines, plain_params(&info.extracted_params.params));
        }
        let ghost after_params = strings_view(lines@);
        assert(after_params =~= after_candidates + opt_lines(
            info.extracted_params.params@.len() > 0,
            seq![Seq::<char>::empty(), "Extracted parameters:"@] + info.extracted_params.params@.map_values(|p: (String, String)| plain_param_line(p)),
        ));
        if self.show_middleware && info.middleware.len() > 0 {
            push_line(&mut lines, String::new());
            push_line(&mut lines, line_of("Middleware stack:"));
            append_lines(&mut lines, plain_middleware(&info.middleware));
        }
        push_line(&mut lines, line_of("====================="));
        assert(strings_view(lines@) =~= plain_lines(self@, *info));
        join_strings(&lines, "\n")
    }
}


// ---------------------------------------------------------------------------
// Minimal and rich layouts
// ---------------------------------------------------------------------------

/// The left edge of a boxed row.
pub open spec fn edge(t: FastApiTheme) -> Seq<char> {
    fg(t.border) + "│"@ + ANSI_RESET@
}

pub open spec fn separator(t: FastApiTheme) -> Seq<char> {
    fg(t.border) + "├─────────────────────────────────────────────┤"@ + ANSI_RESET@
}

pub open spec fn request_method_color(t: FastApiTheme, info: RoutingDebugInfo) -> Color {
    method_color(t, unicode_uppercase(info.request_method@))
}

pub open spec fn minimal_result_line(t: FastApiTheme, info: RoutingDebugInfo) -> Seq<char> {
    match info.matched_route {
        Some(m) => fg(t.success) + "✓ Matched:"@ + ANSI_RESET@ + " "@ + m@,
        None => if info.has_partial_matches {
            fg(t.warning) + "⚠ 405 Method Not Allowed"@ + ANSI_RESET@
        } else {
            fg(t.error) + "✗ 404 Not Found"@ + ANSI_RESET@
        },
    }
}

pub open spec fn accent_param_line(t: FastApiTheme, p: (String, String)) -> Seq<char> {
    "  "@ + fg(t.accent) + p.0@ + ANSI_RESET@ + ": "@ + p.1@
}

pub open spec fn minimal_lines(d: RoutingDebugView, info: RoutingDebugInfo) -> Seq<Seq<char>> {
    let t = d.theme;
    seq![
        fg(t.muted) + "=== Routing Debug ==="@ + ANSI_RESET@,
        fg(request_method_color(t, info)) + info.request_method@ + ANSI_RESET@ + " "@ + fg(t.accent) + info.request_path@ + ANSI_RESET@,
        minimal_result_line(t, info),
    ] + (match info.routing_time {
        Some(rt) => seq![fg(t.muted) + "Routed in "@ + duration_text(rt@) + ANSI_RESET@],
        None => Seq::empty(),
    }) + opt_lines(
        info.extracted_params.params@.len() > 0,
        seq![fg(t.muted) + "Parameters:"@ + ANSI_RESET@] + info.extracted_params.params@.map_values(|p: (String, String)| accent_param_line(t, p)),
    ) + seq![fg(t.muted) + "=================="@ + ANSI_RESET@]
}

/// The methods of the candidates that matched the path only.
pub open spec fn allowed_methods(cs: Seq<CandidateRoute>) -> Seq<Seq<char>> {
    flatten(cs.map_values(|c: CandidateRoute| if c.partial_match { strings_view(c.methods@) } else { Seq::empty() }))
}

pub open spec fn rich_result_lines(t: FastApiTheme, info: RoutingDebugInfo) -> Seq<Seq<char>> {
    match info.matched_route {
        Some(m) => seq![edge(t) + " "@ + fg(t.success) + "✓ Matched"@ + ANSI_RESET@ + " → "@ + m@],
        None => if info.has_partial_matches {
            seq![edge(t) + " "@ + fg(t.warning) + "⚠ 405 Method Not Allowed"@ + ANSI_RESET@] + opt_lines(
                allowed_methods(info.candidates@).len() > 0,
                seq![edge(t) + "   "@ + fg(t.muted) + "Allowed:"@ + ANSI_RESET@ + " "@ + join_with(allowed_methods(info.candidates@), ", "@)],
            )
        } else {
            seq![edge(t) + " "@ + fg(t.error) + "✗ 404 Not Found"@ + ANSI_RESET@]
        },
    }
}

pub open spec fn rich_candidate_lines(d: RoutingDebugView, c: CandidateRoute) -> Seq<Seq<char>> {
    let t = d.theme;
    let (icon, color) = if is_matched(c.result) {
        ("✓"@, t.success)
    } else if c.partial_match {
        ("◐"@, t.warning)
    } else {
        ("○"@, t.muted)
    };
    let handler_part = match c.handler {
        Some(h) => " "@ + fg(t.muted) + "→ "@ + h@ + ANSI_RESET@,
        None => Seq::empty(),
    };
    seq![
        edge(t) + "   "@ + fg(color) + icon + ANSI_RESET@ + " "@ + c.pattern@ + handler_part + " "@ + fg(t.muted) + "["@
            + join_with(strings_view(c.methods@), "|"@) + "]"@ + ANSI_RESET@,
    ] + opt_lines(
        !is_matched(c.result) && !(c.result is PathMismatch),
        seq![edge(t) + "     "@ + fg(t.muted) + match_description(c.result) + ANSI_RESET@],
    )
}

pub open spec fn rich_middleware_line(t: FastApiTheme, m: MiddlewareInfo) -> Seq<char> {
    edge(t) + "   "@ + fg(t.muted) + decimal(m.order as nat) + "→"@ + ANSI_RESET@ + " "@ + m.name@ + " "@ + (if m.route_specific {
        fg(t.accent) + "(route)"@ + ANSI_RESET@
    } else {
        fg(t.muted) + "(global)"@ + ANSI_RESET@
    })
}

pub open spec fn rich_lines(d: RoutingDebugView, info: RoutingDebugInfo) -> Seq<Seq<char>> {
    let t = d.theme;
    seq![
        fg(t.border) + "┌─────────────────────────────────────────────┐"@ + ANSI_RESET@,
        edge(t) + " "@ + fg(t.header) + ANSI_BOLD@ + "Routing Debug"@ + ANSI_RESET@ + "                                "@ + fg(t.border) + "│"@ + ANSI_RESET@,
        separator(t),
        edge(t) + " "@ + ansi_rgb("48"@, request_method_color(t, info)) + ANSI_BOLD@ + " "@ + info.request_method@ + " "@ + ANSI_RESET@ + " "@
            + fg(t.accent) + info.request_path@ + ANSI_RESET@,
        separator(t),
    ] + rich_result_lines(t, info) + (match info.routing_time {
        Some(rt) => seq![edge(t) + " "@ + fg(t.muted) + "Routed in "@ + duration_text(rt@) + ANSI_RESET@],
        None => Seq::empty(),
    }) + opt_lines(
        d.show_all_candidates && info.candidates@.len() > 0,
        seq![
            separator(t),
            edge(t) + " "@ + fg(t.header) + "Candidates"@ + ANSI_RESET@ + " "@ + fg(t.muted) + "("@ + decimal(info.candidates@.len()) + ")"@ + ANSI_RESET@,
        ] + flatten(info.candidates@.map_values(|c: CandidateRoute| rich_candidate_lines(d, c))),
    ) + opt_lines(
        info.extracted_params.params@.len() > 0,
        seq![separator(t), edge(t) + " "@ + fg(t.header) + "Extracted Parameters"@ + ANSI_RESET@]
            + info.extracted_params.params@.map_values(|p: (String, String)| edge(t) + " "@ + accent_param_line(t, p)),
    ) + opt_lines(
        d.show_middleware && info.middleware@.len() > 0,
        seq![separator(t), edge(t) + " "@ + fg(t.header) + "Middleware Stack"@ + ANSI_RESET@]
            + info.middleware@.map_values(|m: MiddlewareInfo| rich_middleware_line(t, m)),
    ) + seq![fg(t.border) + "└─────────────────────────────────────────────┘"@ + ANSI_RESET@]
}

/// The lines of a routing decision in a mode.
pub open spec fn routing_lines(d: RoutingDebugView, info: RoutingDebugInfo) -> Seq<Seq<char>> {
    match d.mode {
        OutputMode::Plain => plain_lines(d, info),
        OutputMode::Minimal => minimal_lines(d, info),
        OutputMode::Rich => rich_lines(d, info),
    }
}

fn accent_params(t: &FastApiTheme, ps: &Vec<(String, String)>, boxed: bool) -> (v: Vec<String>)
    ensures
        !boxed ==> strings_view(v@) == ps@.map_values(|p: (String, String)| accent_param_line(*t, p)),
        boxed ==> strings_view(v@) == ps@.map_values(|p: (String, String)| edge(*t) + " "@ + accent_param_line(*t, p)),
{
    let mut v: Vec<String> = Vec::new();
    let ghost f = |p: (String, String)| if boxed { edge(*t) + " "@ + accent_param_line(*t, p) } else { accent_param_line(*t, p) };
    let mut i: usize = 0;
    while i < ps.len()
        invariant
            i <= ps@.len(),
            strings_view(v@) == ps@.take(i as int).map_values(f),
            f == (|p: (String, String)| if boxed { edge(*t) + " "@ + accent_param_line(*t, p) } else { accent_param_line(*t, p) }),
        decreases ps@.len() - i,
    {
        let mut l = String::new();
        if boxed {
            edge_into(&mut l, t);
            push_str(&mut l, " ");
        }
        push_str(&mut l, "  ");
        let a = t.accent.to_ansi_fg();
        push_str(&mut l, a.as_str());
        push_str(&mut l, ps[i].0.as_str());
        push_str(&mut l, ANSI_RESET);
        push_str(&mut l, ": ");
        push_str(&mut l, ps[i].1.as_str());
        assert(l@ =~= f(ps@[i as int]));
        push_line(&mut v, l);
        i += 1;
        assert(strings_view(v@) =~= ps@.take(i as int).map_values(f));
    }
    assert(ps@.take(ps@.len() as int) =~= ps@);
    assert(boxed ==> ps@.map_values(f) =~= ps@.map_values(|p: (String, String)| edge(*t) + " "@ + accent_param_line(*t, p)));
    assert(!boxed ==> ps@.map_values(f) =~= ps@.map_values(|p: (String, String)| accent_param_line(*t, p)));
    v
}

fn edge_into(s: &mut String, t: &FastApiTheme)
    ensures
        final(s)@ == old(s)@ + edge(*t),
{
    let b = t.border.to_ansi_fg();
    push_str(s, b.as_str());
    push_str(s, "│");
    push_str(s, ANSI_RESET);
    assert(s@ =~= old(s)@ + edge(*t));
}

fn colored(s: &mut String, c: &Color, text: &str)
    ensures
        final(s)@ == old(s)@ + fg(*c) + text@ + ANSI_RESET@,
{
    let a = c.to_ansi_fg();
    push_str(s, a.as_str());
    push_str(s, text);
    push_str(s, ANSI_RESET);
    assert(s@ =~= old(s)@ + fg(*c) + text@ + ANSI_RESET@);
}

fn separator_line(t: &FastApiTheme) -> (s: String)
    ensures
        s@ == separator(*t),
{
    let mut s = String::new();
    colored(&mut s, &t.border, "├─────────────────────────────────────────────┤");
    assert(s@ =~= separator(*t));
    s
}

fn allowed_list(cs: &Vec<CandidateRoute>) -> (v: Vec<String>)
    ensures
        strings_view(v@) == allowed_methods(cs@),
{
    let mut v: Vec<String> = Vec::new();
    let mut i: usize = 0;
    while i < cs.len()
        invariant
            i <= cs@.len(),
            strings_view(v@) == allowed_methods(cs@.take(i as int)),
        decreases cs@.len() - i,
    {
        if cs[i].partial_match {
            let mut j: usize = 0;
            let ghost before = strings_view(v@);
            while j < cs[i].methods.len()
                invariant
                    i < cs@.len(),
                    j <= cs@[i as int].methods@.len(),
                    strings_view(v@) == before + strings_view(cs@[i as int].methods@).take(j as int),
                decreases cs@[i as int].methods@.len() - j,
            {
                push_line(&mut v, cs[i].methods[j].clone());
                j += 1;
                assert(strings_view(cs@[i as int].methods@).take(j as int) =~= strings_view(cs@[i as int].methods@).take(j - 1).push(cs@[i as int].methods@[j - 1]@));
            }
            assert(strings_view(cs@[i as int].methods@).take(j as int) =~= strings_view(cs@[i as int].methods@));
        }
        i += 1;
        assert(cs@.take(i as int).map_values(|c: CandidateRoute| if c.partial_match { strings_view(c.methods@) } else { Seq::empty() }).drop_last()
            =~= cs@.take(i - 1).map_values(|c: CandidateRoute| if c.partial_match { strings_view(c.methods@) } else { Seq::empty() }));
        assert(strings_view(v@) =~= allowed_methods(cs@.take(i as int)));
    }
    assert(cs@.take(cs@.len() as int) =~= cs@);
    v
}

impl RoutingDebug {
    /// A formatter in `mode` with the default theme, showing every candidate
    /// and the middleware stack.
    pub fn new(mode: OutputMode) -> (d: Self)
        ensures
            d@ == (RoutingDebugView { mode, theme: fastapi_palette(), show_all_candidates: true, show_middleware: true }),
    {
        RoutingDebug { mode, theme: FastApiTheme::fastapi(), show_all_candidates: true, show_middleware: true }
    }

    /// Sets the theme.
    pub fn theme(self, theme: FastApiTheme) -> (d: Self)
        ensures
            d@ == (RoutingDebugView { theme, ..self@ }),
    {
        RoutingDebug { theme, ..self }
    }

    /// Formats a routing decision as lines joined by newlines.
    pub fn format(&self, info: &RoutingDebugInfo) -> (s: String)
        ensures
            s@ == join_with(routing_lines(self@, *info), "\n"@),
    {
        match self.mode {
            OutputMode::Plain => self.format_plain(info),
            OutputMode::Minimal => self.format_minimal(info),
            OutputMode::Rich => self.format_rich(info),
        }
    }

    fn format_minimal(&self, info: &RoutingDebugInfo) -> (s: String)
        ensures
            s@ == join_with(minimal_lines(self@, *info), "\n"@),
    {
        let t = &self.theme;
        let mut lines: Vec<String> = Vec::new();
        assert(strings_view(lines@) =~= Seq::<Seq<char>>::empty());
        let mut l = String::new();
        colored(&mut l, &t.muted, "=== Routing Debug ===");
        push_line(&mut lines, l);
        let mut l = String::new();
        let mc = t.http_method_color(info.request_method.as_str());
        colored(&mut l, &mc, info.request_method.as_str());
        push_str(&mut l, " ");
        colored(&mut l, &t.accent, info.request_path.as_str());
        push_line(&mut lines, l);
        let mut l = String::new();
        match &info.matched_route {
            Some(m) => {
                colored(&mut l, &t.success, "✓ Matched:");
                push_str(&mut l, " ");
                push_str(&mut l, m.as_str());
            },
            None => if info.has_partial_matches {
                colored(&mut l, &t.warning, "⚠ 405 Method Not Allowed");
            } else {
                colored(&mut l, &t.error, "✗ 404 Not Found");
            },
        }
        assert(l@ =~= minimal_result_line(*t, *info));
        push_line(&mut lines, l);
        if let Some(rt) = info.routing_time {
            let mut l = String::new();
            let f = format_duration(rt);
            let m = t.muted.to_ansi_fg();
            push_str(&mut l, m.as_str());
            push_str(&mut l, "Routed in ");
            push_str(&mut l, f.as_str());
            push_str(&mut l, ANSI_RESET);
            push_line(&mut lines, l);
        }
        let ghost head = strings_view(lines@);
        if info.extracted_params.params.len() > 0 {
            let mut l = String::new();
            colored(&mut l, &t.muted, "Parameters:");
            push_line(&mut lines, l);
            append_lines(&mut lines, accent_params(t, &info.extracted_params.params, false));
        }
        let mut l = String::new();
        colored(&mut l, &t.muted, "==================");
        push_line(&mut lines, l);
        assert(strings_view(lines@) =~= minimal_lines(self@, *info));
        join_strings(&lines, "\n")
    }

    fn rich_candidate(&self, c: &CandidateRoute) -> (v: Vec<String>)
        ensures
            strings_view(v@) == rich_candidate_lines(self@, *c),
    {
        let t = &self.theme;
        let mut v: Vec<String> = Vec::new();
        let (icon, color) = if c.result.is_match() {
            ("✓", t.success)
        } else if c.partial_match {
            ("◐", t.warning)
        } else {
            ("○", t.muted)
        };
        let mut l = String::new();
        edge_into(&mut l, t);
        push_str(&mut l, "   ");
        colored(&mut l, &color, icon);
        push_str(&mut l, " ");
        push_str(&mut l, c.pattern.as_str());
        if let Some(h) = &c.handler {
            push_str(&mut l, " ");
            let m = t.muted.to_ansi_fg();
            push_str(&mut l, m.as_str());
            push_str(&mut l, "→ ");
            push_str(&mut l, h.as_str());
            push_str(&mut l, ANSI_RESET);
        }
        push_str(&mut l, " ");
        let m = t.muted.to_ansi_fg();
        push_str(&mut l, m.as_str());
        push_str(&mut l, "[");
        let methods = join_strings(&c.methods, "|");
        push_str(&mut l, methods.as_str());
        push_str(&mut l, "]");
        push_str(&mut l, ANSI_RESET);
        assert(l@ =~= rich_candidate_lines(self@, *c)[0]);
        push_line(&mut v, l);
        let path_mismatch = match &c.result {
            MatchResult::PathMismatch => true,
            _ => false,
        };
        if !c.result.is_match() && !path_mismatch {
            let mut r = String::new();
            edge_into(&mut r, t);
            push_str(&mut r, "     ");
            let d = c.result.description();
            colored(&mut r, &t.muted, d.as_str());
            push_line(&mut v, r);
        }
        assert(strings_view(v@) =~= rich_candidate_lines(self@, *c));
        v
    }

    fn rich_middleware(&self, ms: &Vec<MiddlewareInfo>) -> (v: Vec<String>)
        ensures
            strings_view(v@) == ms@.map_values(|m: MiddlewareInfo| rich_middleware_line(self@.theme, m)),
    {
        let t = &self.theme;
        let mut v: Vec<String> = Vec::new();
        let mut i: usize = 0;
        while i < ms.len()
            invariant
                i <= ms@.len(),
                *t == self@.theme,
                strings_view(v@) == ms@.take(i as int).map_values(|m: MiddlewareInfo| rich_middleware_line(self@.theme, m)),
            decreases ms@.len() - i,
        {
            let m = &ms[i];
            let mut l = String::new();
            edge_into(&mut l, t);
            push_str(&mut l, "   ");
            let mu = t.muted.to_ansi_fg();
            push_str(&mut l, mu.as_str());
            push_decimal(&mut l, m.order as u64);
            push_str(&mut l, "→");
            push_str(&mut l, ANSI_RESET);
            push_str(&mut l, " ");
            push_str(&mut l, m.name.as_str());
            push_str(&mut l, " ");
            if m.route_specific {
                colored(&mut l, &t.accent, "(route)");
            } else {
                colored(&mut l, &t.muted, "(global)");
            }
            assert(l@ =~= rich_middleware_line(self@.theme, *m));
            push_line(&mut v, l);
            i += 1;
            assert(strings_view(v@) =~= ms@.take(i as int).map_values(|m: MiddlewareInfo| rich_middleware_line(self@.theme, m)));
        }
        assert(ms@.take(ms@.len() as int) =~= ms@);
        v
    }

    fn rich_result(&self, info: &RoutingDebugInfo) -> (v: Vec<String>)
        ensures
            strings_view(v@) == rich_result_lines(self@.theme, *info),
    {
        let t = &self.theme;
        let mut v: Vec<String> = Vec::new();
        let mut l = String::new();
        edge_into(&mut l, t);
        push_str(&mut l, " ");
        match &info.matched_route {
            Some(m) => {
                colored(&mut l, &t.success, "✓ Matched");
                push_str(&mut l, " → ");
                push_str(&mut l, m.as_str());
                push_line(&mut v, l);
            },
            None => if info.has_partial_matches {
                colored(&mut l, &t.warning, "⚠ 405 Method Not Allowed");
                push_line(&mut v, l);
                let allowed = allowed_list(&info.candidates);
                if allowed.len() > 0 {
                    let mut a = String::new();
                    edge_into(&mut a, t);
                    push_str(&mut a, "   ");
                    colored(&mut a, &t.muted, "Allowed:");
                    push_str(&mut a, " ");
                    let j = join_strings(&allowed, ", ");
                    push_str(&mut a, j.as_str());
                    push_line(&mut v, a);
                }
            } else {
                colored(&mut l, &t.error, "✗ 404 Not Found");
                push_line(&mut v, l);
            },
        }
        assert(strings_view(v@) =~= rich_result_lines(self@.theme, *info));
        v
    }

    #[verifier::rlimit(60)]
    fn rich_head(&self, info: &RoutingDebugInfo) -> (v: Vec<String>)
        ensures
            strings_view(v@) == rich_lines(self@, *info).take(5),
    {
        let t = &self.theme;
        let mut lines: Vec<String> = Vec::new();
        assert(strings_view(lines@) =~= Seq::<Seq<char>>::empty());
        let mut l = String::new();
        colored(&mut l, &t.border, "┌─────────────────────────────────────────────┐");
        push_line(&mut lines, l);
        let mut l = String::new();
        edge_into(&mut l, t);
        push_str(&mut l, " ");
        let h = t.header.to_ansi_fg();
        push_str(&mut l, h.as_str());
        push_str(&mut l, ANSI_BOLD);
        push_str(&mut l, "Routing Debug");
        push_str(&mut l, ANSI_RESET);
        push_str(&mut l, "                                ");
        colored(&mut l, &t.border, "│");
        push_line(&mut lines, l);
        push_line(&mut lines, separator_line(t));
        let mut l = String::new();
        edge_into(&mut l, t);
        push_str(&mut l, " ");
        let mc = t.http_method_color(info.request_method.as_str());
        let bg = mc.to_ansi_bg();
        push_str(&mut l, bg.as_str());
        push_str(&mut l, ANSI_BOLD);
        push_str(&mut l, " ");
        push_str(&mut l, info.request_method.as_str());
        push_str(&mut l, " ");
        push_str(&mut l, ANSI_RESET);
        push_str(&mut l, " ");
        colored(&mut l, &t.accent, info.request_path.as_str());
        push_line(&mut lines, l);
        push_line(&mut lines, separator_line(t));
        assert(strings_view(lines@) =~= rich_lines(self@, *info).take(5));
        lines
    }

    #[verifier::rlimit(60)]
    #[verifier::spinoff_prover]
    fn format_rich(&self, info: &RoutingDebugInfo) -> (s: String)
        ensures
            s@ == join_with(rich_lines(self@, *info), "\n"@),
    {
        let t = &self.theme;
        let mut lines = self.rich_head(info);
        let ghost head = strings_view(lines@);
        append_lines(&mut lines, self.rich_result(info));
        if let Some(rt) = info.routing_time {
            let mut l = String::new();
            edge_into(&mut l, t);
            push_str(&mut l, " ");
            let m = t.muted.to_ansi_fg();
            push_str(&mut l, m.as_str());
            push_str(&mut l, "Routed in ");
            let f = format_duration(rt);
            push_str(&mut l, f.as_str());
            push_str(&mut l, ANSI_RESET);
            push_line(&mut lines, l);
        }
        let ghost before_candidates = strings_view(lines@);
        assert(before_candidates =~= head + rich_result_lines(self@.theme, *info) + (match info.routing_time {
            Some(rt) => seq![edge(*t) + " "@ + fg(t.muted) + "Routed in "@ + duration_text(rt@) + ANSI_RESET@],
            None => Seq::empty(),
        }));
        if self.show_all_candidates && info.candidates.len() > 0 {
            push_line(&mut lines, separator_line(t));
            let mut l = String::new();
            edge_into(&mut l, t);
            push_str(&mut l, " ");
            colored(&mut l, &t.header, "Candidates");
            push_str(&mut l, " ");
            let m = t.muted.to_ansi_fg();
            push_str(&mut l, m.as_str());
            push_str(&mut l, "(");
            push_decimal(&mut l, info.candidates.len() as u64);
            push_str(&mut l, ")");
            push_str(&mut l, ANSI_RESET);
            push_line(&mut lines, l);
            append_lines(&mut lines, each_candidate(&info.candidates, true, self));
        }
        let ghost before_params = strings_view(lines@);
        if info.extracted_params.params.len() > 0 {
            push_line(&mut lines, separator_line(t));
            let mut l = String::new();
            edge_into(&mut l, t);
            push_str(&mut l, " ");
            colored(&mut l, &t.header, "Extracted Parameters");
            push_line(&mut lines, l);
            append_lines(&mut lines, accent_params(t, &info.extracted_params.params, true));
        }
        let ghost before_mw = strings_view(lines@);
        if self.show_middleware && info.middleware.len() > 0 {
            push_line(&mut lines, separator_line(t));
            let mut l = String::new();
            edge_into(&mut l, t);
            push_str(&mut l, " ");
            colored(&mut l, &t.header, "Middleware Stack");
            push_line(&mut lines, l);
            append_lines(&mut lines, self.rich_middleware(&info.middleware));
        }
        let mut l = String::new();
        colored(&mut l, &t.border, "└─────────────────────────────────────────────┘");
        push_line(&mut lines, l);
        assert(strings_view(lines@) =~= rich_lines(self@, *info));
        join_strings(&lines, "\n")
    }
}

} // verus!

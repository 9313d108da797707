//! Test results: grouped output with a summary, a progress bar, and TAP.
use vstd::prelude::*;
use crate::output::mode::{mode_uses_ansi, OutputMode};
use crate::output::shutdown_progress::{fg, ANSI_RESET};
use crate::output::themes::{fastapi_palette, repeat_spec, Color, FastApiTheme};
use crate::text::{
    char_is_space, chars_of, decimal, join_strings, join_with, push_decimal, push_decimal_u128, push_line, push_str, repeat_char, string_from_chars, strings_view, trim_end,
};

verus! {

/// The status of a test case.
#[derive(Debug, Clone, Copy, PartialEq, Eq, Structural)]
pub enum TestStatus {
    Pass,
    Fail,
    Skip,
}

pub open spec fn status_label(s: TestStatus) -> Seq<char> {
    match s {
        TestStatus::Pass => "PASS"@,
        TestStatus::Fail => "FAIL"@,
        TestStatus::Skip => "SKIP"@,
    }
}

/// The indicator of a status: a symbol in rich mode, the label otherwise.
pub open spec fn status_indicator(s: TestStatus, mode: OutputMode) -> Seq<char> {
    if mode == OutputMode::Rich {
        match s {
            TestStatus::Pass => "✓"@,
            TestStatus::Fail => "✗"@,
            TestStatus::Skip => "↷"@,
        }
    } else {
        status_label(s)
    }
}

pub open spec fn status_color(s: TestStatus, t: FastApiTheme) -> Color {
    match s {
        TestStatus::Pass => t.success,
        TestStatus::Fail => t.error,
        TestStatus::Skip => t.warning,
    }
}

impl TestStatus {
    /// The plain label of the status.
    pub fn label(self) -> (s: &'static str)
        ensures
            s@ == status_label(self),
    {
        match self {
            TestStatus::Pass => "PASS",
            TestStatus::Fail => "FAIL",
            TestStatus::Skip => "SKIP",
        }
    }

    /// The indicator of the status in a mode.
    pub fn indicator(self, mode: OutputMode) -> (s: &'static str)
        ensures
            s@ == status_indicator(self, mode),
    {
        match (self, mode) {
            (TestStatus::Pass, OutputMode::Rich) => "✓",
            (TestStatus::Fail, OutputMode::Rich) => "✗",
            (TestStatus::Skip, OutputMode::Rich) => "↷",
            _ => self.label(),
        }
    }

    fn color(self, theme: &FastApiTheme) -> (c: Color)
        ensures
            c == status_color(self, *theme),
    {
        match self {
            TestStatus::Pass => theme.success,
            TestStatus::Fail => theme.error,
            TestStatus::Skip => theme.warning,
        }
    }
}

/// One test case.
#[derive(Debug, Clone)]
pub struct TestCaseResult {
    /// Test name.
    pub name: String,
    /// Test status.
    pub status: TestStatus,
    /// Duration in milliseconds.
    pub duration_ms: Option<u128>,
    /// Details such as an error message.
    pub details: Option<String>,
}

impl TestCaseResult {
    pub fn new(name: &str, status: TestStatus) -> (c: Self)
        ensures
            c.name@ == name@,
            c.status == status,
            c.duration_ms is None,
            c.details is None,
    {
        TestCaseResult { name: String::from_str(name), status, duration_ms: None, details: None }
    }

    pub fn duration_ms(self, duration_ms: u128) -> (c: Self)
        ensures
            c == (TestCaseResult { duration_ms: Some(duration_ms), ..self }),
    {
        TestCaseResult { duration_ms: Some(duration_ms), ..self }
    }

    pub fn details(self, details: &str) -> (c: Self)
        ensures
            c.details matches Some(d) && d@ == details@,
            c == (TestCaseResult { details: c.details, ..self }),
    {
        TestCaseResult { details: Some(String::from_str(details)), ..self }
    }
}

/// The test cases of one module or file.
#[derive(Debug, Clone)]
pub struct TestModuleResult {
    /// Module or file name.
    pub name: String,
    /// Its test cases.
    pub cases: Vec<TestCaseResult>,
}

impl TestModuleResult {
    pub fn new(name: &str, cases: Vec<TestCaseResult>) -> (m: Self)
        ensures
            m.name@ == name@,
            m.cases == cases,
    {
        TestModuleResult { name: String::from_str(name), cases }
    }

    /// Adds a test case.
    pub fn case(self, case: TestCaseResult) -> (m: Self)
        ensures
            m.name == self.name,
            m.cases@ == self.cases@.push(case),
    {
        let mut m = self;
        m.cases.push(case);
        m
    }
}

/// A whole test run.
#[derive(Debug, Clone)]
pub struct TestReport {
    /// The modules.
    pub modules: Vec<TestModuleResult>,
}

/// Summary counts of a report.
#[derive(Debug, Clone, Copy, PartialEq, Eq, Structural)]
pub struct TestCounts {
    pub total: usize,
    pub passed: usize,
    pub failed: usize,
    pub skipped: usize,
    /// Total duration in milliseconds, when some case has one.
    pub duration_ms: Option<u128>,
}

impl Default for TestCounts {
    fn default() -> (c: Self)
        ensures
            c == (TestCounts { total: 0, passed: 0, failed: 0, skipped: 0, duration_ms: None }),
    {
        TestCounts { total: 0, passed: 0, failed: 0, skipped: 0, duration_ms: None }
    }
}

/// The cases of all modules, in order.
pub open spec fn all_cases(ms: Seq<TestModuleResult>) -> Seq<TestCaseResult>
    decreases ms.len(),
{
    if ms.len() == 0 {
        Seq::empty()
    } else {
        all_cases(ms.drop_last()) + ms.last().cases@
    }
}

pub open spec fn count_status(cs: Seq<TestCaseResult>, s: TestStatus) -> nat
    decreases cs.len(),
{
    if cs.len() == 0 {
        0
    } else {
        count_status(cs.drop_last(), s) + if cs.last().status == s { 1nat } else { 0nat }
    }
}

/// The sum of the durations that are known, if any is.
pub open spec fn total_duration(cs: Seq<TestCaseResult>) -> Option<nat>
    decreases cs.len(),
{
    if cs.len() == 0 {
        None
    } else {
        match (total_duration(cs.drop_last()), cs.last().duration_ms) {
            (acc, None) => acc,
            (None, Some(d)) => Some(d as nat),
            (Some(a), Some(d)) => Some(a + d as nat),
        }
    }
}

/// Every case is counted once: the passed, failed and skipped cases make up
/// the total.
pub proof fn lemma_counts_add_up(cs: Seq<TestCaseResult>)
    ensures
        count_status(cs, TestStatus::Pass) + count_status(cs, TestStatus::Fail) + count_status(cs, TestStatus::Skip)
            == cs.len(),
    decreases cs.len(),
{
    if cs.len() > 0 {
        lemma_counts_add_up(cs.drop_last());
    }
}

/// The counts of a sequence of cases.
pub open spec fn counts_of(cs: Seq<TestCaseResult>) -> (nat, nat, nat, nat, Option<nat>) {
    (cs.len(), count_status(cs, TestStatus::Pass), count_status(cs, TestStatus::Fail), count_status(cs, TestStatus::Skip), total_duration(cs))
}

/// The counts of a report fit their integer types.
pub open spec fn counts_fit(ms: Seq<TestModuleResult>) -> bool {
    &&& all_cases(ms).len() < usize::MAX
    &&& match total_duration(all_cases(ms)) {
        Some(d) => d <= u128::MAX,
        None => true,
    }
}

pub open spec fn counts_view(c: TestCounts) -> (nat, nat, nat, nat, Option<nat>) {
    (c.total as nat, c.passed as nat, c.failed as nat, c.skipped as nat, match c.duration_ms {
        Some(d) => Some(d as nat),
        None => None,
    })
}

proof fn lemma_all_cases_push(ms: Seq<TestModuleResult>, i: int)
    requires
        0 <= i < ms.len(),
    ensures
        all_cases(ms.take(i + 1)) == all_cases(ms.take(i)) + ms[i].cases@,
{
    assert(ms.take(i + 1).drop_last() =~= ms.take(i));
}

proof fn lemma_counts_prefix(cs: Seq<TestCaseResult>, i: int)
    requires
        0 <= i <= cs.len(),
    ensures
        count_status(cs.take(i), TestStatus::Pass) <= count_status(cs, TestStatus::Pass),
        count_status(cs.take(i), TestStatus::Fail) <= count_status(cs, TestStatus::Fail),
        count_status(cs.take(i), TestStatus::Skip) <= count_status(cs, TestStatus::Skip),
        count_status(cs, TestStatus::Pass) <= cs.len(),
        count_status(cs, TestStatus::Fail) <= cs.len(),
        count_status(cs, TestStatus::Skip) <= cs.len(),
        match (total_duration(cs.take(i)), total_duration(cs)) {
            (Some(a), Some(b)) => a <= b,
            (Some(a), None) => false,
            _ => true,
        },
    decreases cs.len() - i,
{
    if i < cs.len() {
        lemma_counts_prefix(cs.drop_last(), if i < cs.len() { i } else { i - 1 });
        assert(cs.drop_last().take(i) =~= cs.take(i));
    } else {
        assert(cs.take(i) =~= cs);
        lemma_counts_bound(cs);
    }
}

proof fn lemma_counts_bound(cs: Seq<TestCaseResult>)
    ensures
        count_status(cs, TestStatus::Pass) <= cs.len(),
        count_status(cs, TestStatus::Fail) <= cs.len(),
        count_status(cs, TestStatus::Skip) <= cs.len(),
    decreases cs.len(),
{
    if cs.len() > 0 {
        lemma_counts_bound(cs.drop_last());
    }
}

proof fn lemma_all_cases_prefix(ms: Seq<TestModuleResult>, i: int)
    requires
        0 <= i <= ms.len(),
    ensures
        all_cases(ms).take(all_cases(ms.take(i)).len() as int) == all_cases(ms.take(i)),
        all_cases(ms.take(i)).len() <= all_cases(ms).len(),
    decreases ms.len() - i,
{
    if i < ms.len() {
        lemma_all_cases_prefix(ms.drop_last(), i);
        assert(ms.drop_last().take(i) =~= ms.take(i));
        assert(all_cases(ms) == all_cases(ms.drop_last()) + ms.last().cases@);
        assert(all_cases(ms).take(all_cases(ms.drop_last()).len() as int) =~= all_cases(ms.drop_last()));
        assert(all_cases(ms).take(all_cases(ms.take(i)).len() as int) =~= all_cases(ms.drop_last()).take(all_cases(ms.take(i)).len() as int));
    } else {
        assert(ms.take(i) =~= ms);
        assert(all_cases(ms).take(all_cases(ms).len() as int) =~= all_cases(ms));
    }
}

/// A TAP line for one case, numbered `idx`.
pub open spec fn tap_case(module: Seq<char>, c: TestCaseResult, idx: nat) -> Seq<Seq<char>> {
    seq![
        (if c.status == TestStatus::Fail { "not ok"@ } else { "ok"@ }) + " "@ + decimal(idx) + " - "@ + module + "::"@ + c.name@
            + (if c.status == TestStatus::Skip { " # SKIP"@ } else { Seq::empty() }),
    ] + match c.details {
        Some(d) => seq!["# "@ + d@],
        None => Seq::empty(),
    }
}

/// The TAP lines of cases numbered from `start`.
pub open spec fn tap_cases(module: Seq<char>, cs: Seq<TestCaseResult>, start: nat) -> Seq<Seq<char>>
    decreases cs.len(),
{
    if cs.len() == 0 {
        Seq::empty()
    } else {
        tap_cases(module, cs.drop_last(), start) + tap_case(module, cs.last(), (start + cs.len() - 1) as nat)
    }
}

/// The TAP lines of all modules, numbered from one.
pub open spec fn tap_modules(ms: Seq<TestModuleResult>) -> Seq<Seq<char>>
    decreases ms.len(),
{
    if ms.len() == 0 {
        Seq::empty()
    } else {
        tap_modules(ms.drop_last()) + tap_cases(ms.last().name@, ms.last().cases@, all_cases(ms.drop_last()).len() + 1)
    }
}

pub open spec fn tap_lines(ms: Seq<TestModuleResult>) -> Seq<Seq<char>> {
    seq!["TAP version 13"@, "1.."@ + decimal(all_cases(ms).len())] + tap_modules(ms)
}

impl TestReport {
    pub fn new(modules: Vec<TestModuleResult>) -> (r: Self)
        ensures
            r.modules == modules,
    {
        TestReport { modules }
    }

    /// Adds a module.
    pub fn module(self, module: TestModuleResult) -> (r: Self)
        ensures
            r.modules@ == self.modules@.push(module),
    {
        let mut r = self;
        r.modules.push(module);
        r
    }

    /// The summary counts of the report; the durations that are known are
    /// added up.
    pub fn counts(&self) -> (c: TestCounts)
        requires
            counts_fit(self.modules@),
        ensures
            counts_view(c) == counts_of(all_cases(self.modules@)),
    {
        let mut c = TestCounts::default();
        let ghost ms = self.modules@;
        let mut i: usize = 0;
        assert(all_cases(ms.take(0)) =~= Seq::<TestCaseResult>::empty());
        while i < self.modules.len()
            invariant
                i <= ms.len(),
                ms == self.modules@,
                counts_fit(ms),
                counts_view(c) == counts_of(all_cases(ms.take(i as int))),
            decreases ms.len() - i,
        {
            let cases = &self.modules[i].cases;
            let ghost before = all_cases(ms.take(i as int));
            proof {
                lemma_all_cases_push(ms, i as int);
            }
            let mut j: usize = 0;
            while j < cases.len()
                invariant
                    i < ms.len(),
                    ms == self.modules@,
                    *cases == ms[i as int].cases,
                    j <= cases@.len(),
                    before == all_cases(ms.take(i as int)),
                    all_cases(ms.take(i + 1)) == before + cases@,
                    counts_fit(ms),
                    counts_view(c) == counts_of(before + cases@.take(j as int)),
                decreases cases@.len() - j,
            {
                let ghost cur = before + cases@.take(j as int);
                let ghost next = before + cases@.take(j + 1);
                assert(next.drop_last() =~= cur);
                assert(next.last() == cases@[j as int]);
                proof {
                    lemma_all_cases_prefix(ms, i + 1);
                    assert(all_cases(ms).take(next.len() as int) =~= next) by {
                        assert(all_cases(ms.take(i + 1)).take(next.len() as int) =~= next);
                    }
                    lemma_counts_prefix(all_cases(ms), next.len() as int);
                }
                let case = &cases[j];
                c.total = c.total + 1;
                match case.status {
                    TestStatus::Pass => {
                        c.passed = c.passed + 1;
                    },
                    TestStatus::Fail => {
                        c.failed = c.failed + 1;
                    },
                    TestStatus::Skip => {
                        c.skipped = c.skipped + 1;
                    },
                }
                if let Some(d) = case.duration_ms {
                    let acc = match c.duration_ms {
                        Some(a) => a,
                        None => 0,
                    };
                    c.duration_ms = Some(acc + d);
                }
                j += 1;
            }
            assert(cases@.take(cases@.len() as int) =~= cases@);
            i += 1;
        }
        assert(ms.take(ms.len() as int) =~= ms);
        c
    }

    /// The report in the Test Anything Protocol: a failed case is
    /// `not ok`, a skipped one carries `# SKIP`, details follow as comments.
    pub fn to_tap(&self) -> (s: String)
        requires
            counts_fit(self.modules@),
        ensures
            s@ == join_with(tap_lines(self.modules@), "\n"@),
    {
        let counts = self.counts();
        let mut lines: Vec<String> = Vec::new();
        assert(strings_view(lines@) =~= Seq::<Seq<char>>::empty());
        push_line(&mut lines, String::from_str("TAP version 13"));
        let mut l = String::from_str("1..");
        push_decimal(&mut l, counts.total as u64);
        push_line(&mut lines, l);
        let ghost ms = self.modules@;
        let ghost head = strings_view(lines@);
        let mut index: usize = 1;
        let mut i: usize = 0;
        while i < self.modules.len()
            invariant
                i <= ms.len(),
                ms == self.modules@,
                counts_fit(ms),
                index == all_cases(ms.take(i as int)).len() + 1,
                strings_view(lines@) == head + tap_modules(ms.take(i as int)),
            decreases ms.len() - i,
        {
            let module = &self.modules[i];
            let ghost before = strings_view(lines@);
            let ghost start = index as nat;
            proof {
                lemma_all_cases_push(ms, i as int);
                lemma_all_cases_prefix(ms, i + 1);
                assert(ms.take(i + 1).drop_last() =~= ms.take(i as int));
            }
            let mut j: usize = 0;
            while j < module.cases.len()
                invariant
                    i < ms.len(),
                    ms == self.modules@,
                    *module == ms[i as int],
                    j <= module.cases@.len(),
                    counts_fit(ms),
                    start == all_cases(ms.take(i as int)).len() + 1,
                    index == start + j,
                    all_cases(ms.take(i + 1)).len() <= all_cases(ms).len(),
                    all_cases(ms.take(i + 1)).len() == all_cases(ms.take(i as int)).len() + module.cases@.len(),
                    strings_view(lines@) == before + tap_cases(module.name@, module.cases@.take(j as int), start),
                decreases module.cases@.len() - j,
            {
                let case = &module.cases[j];
                let mut l = String::new();
                push_str(&mut l, if case.status == TestStatus::Fail { "not ok" } else { "ok" });
                push_str(&mut l, " ");
                push_decimal(&mut l, index as u64);
                push_str(&mut l, " - ");
                push_str(&mut l, module.name.as_str());
                push_str(&mut l, "::");
                push_str(&mut l, case.name.as_str());
                if case.status == TestStatus::Skip {
                    push_str(&mut l, " # SKIP");
                }
                push_line(&mut lines, l);
                if let Some(d) = &case.details {
                    let mut l = String::from_str("# ");
                    push_str(&mut l, d.as_str());
                    push_line(&mut lines, l);
                }
                assert(module.cases@.take(j + 1).drop_last() =~= module.cases@.take(j as int));
                assert(strings_view(lines@) =~= before + tap_cases(module.name@, module.cases@.take(j + 1), start));
                index = index + 1;
                j += 1;
            }
            assert(module.cases@.take(module.cases@.len() as int) =~= module.cases@);
            i += 1;
        }
        assert(ms.take(ms.len() as int) =~= ms);
        assert(strings_view(lines@) =~= tap_lines(ms));
        join_strings(&lines, "\n")
    }
}


// ---------------------------------------------------------------------------
// Display
// ---------------------------------------------------------------------------

/// Renders test reports.
#[derive(Debug, Clone)]
pub struct TestReportDisplay {
    mode: OutputMode,
    theme: FastApiTheme,
    show_timings: bool,
    show_summary: bool,
    show_progress: bool,
    progress_width: usize,
    title: Option<String>,
}

/// The settings of a [`TestReportDisplay`].
pub struct ReportDisplayView {
    pub mode: OutputMode,
    pub theme: FastApiTheme,
    pub show_timings: bool,
    pub show_summary: bool,
    pub show_progress: bool,
    pub progress_width: usize,
    pub title: Option<Seq<char>>,
}

impl View for TestReportDisplay {
    type V = ReportDisplayView;

    closed spec fn view(&self) -> ReportDisplayView {
        ReportDisplayView {
            mode: self.mode,
            theme: self.theme,
            show_timings: self.show_timings,
            show_summary: self.show_summary,
            show_progress: self.show_progress,
            progress_width: self.progress_width,
            title: match self.title {
                Some(t) => Some(t@),
                None => None,
            },
        }
    }
}

pub open spec fn sat_mul(x: usize, y: usize) -> usize {
    if x * y > usize::MAX { usize::MAX } else { (x * y) as usize }
}

/// A run of `n` characters `c`, colored in ANSI modes (nothing when empty).
pub open spec fn bar_segment(mode: OutputMode, color: Color, c: char, n: nat) -> Seq<char> {
    if mode_uses_ansi(mode) {
        if n > 0 { fg(color) + repeat_spec(c, n) + ANSI_RESET@ } else { Seq::empty() }
    } else {
        repeat_spec(c, n)
    }
}

/// The progress bar of a run: `=` passed, `!` failed, `-` skipped and
/// the rest, each share rounded down, then the tallies.
pub open spec fn progress_bar_text(passed: usize, failed: usize, skipped: usize, total: usize, width: usize, mode: OutputMode, t: FastApiTheme) -> Seq<char> {
    if total == 0 {
        "[no tests]"@
    } else {
        let w = if width < 8 { 8 } else { width };
        let pass_len = sat_mul(passed, w) / total;
        let fail_len = sat_mul(failed, w) / total;
        let skip_len = sat_mul(skipped, w) / total;
        let used = pass_len.saturating_add(fail_len).saturating_add(skip_len);
        let remaining = w.saturating_sub(used);
        "["@ + bar_cells(pass_len, fail_len, skip_len, remaining, mode, t) + "]"@ + tallies(passed, failed, skipped, total)
    }
}

/// The cells of a progress bar.
pub open spec fn bar_cells(pass_len: usize, fail_len: usize, skip_len: usize, remaining: usize, mode: OutputMode, t: FastApiTheme) -> Seq<char> {
    if mode_uses_ansi(mode) {
        bar_segment(mode, t.success, '=', pass_len as nat) + bar_segment(mode, t.error, '!', fail_len as nat)
            + bar_segment(mode, t.warning, '-', skip_len as nat) + bar_segment(mode, t.muted, '-', remaining as nat)
    } else {
        repeat_spec('=', pass_len as nat) + repeat_spec('!', fail_len as nat) + repeat_spec('-', (skip_len + remaining) as nat)
    }
}

/// The tallies after a progress bar.
pub open spec fn tallies(passed: usize, failed: usize, skipped: usize, total: usize) -> Seq<char> {
    " "@ + decimal(passed as nat) + "/"@ + decimal(total as nat) + " passed"@
        + (if failed > 0 { ", "@ + decimal(failed as nat) + " failed"@ } else { Seq::empty() })
        + (if skipped > 0 { ", "@ + decimal(skipped as nat) + " skipped"@ } else { Seq::empty() })
}

pub open spec fn report_title_lines(d: ReportDisplayView) -> Seq<Seq<char>> {
    match d.title {
        Some(t) => seq![t, repeat_spec('-', vstd::utf8::encode_utf8(t).len())],
        None => Seq::empty(),
    }
}

pub open spec fn module_header(d: ReportDisplayView, name: Seq<char>) -> Seq<char> {
    if mode_uses_ansi(d.mode) {
        fg(d.theme.accent) + "Module:"@ + ANSI_RESET@ + " "@ + fg(d.theme.primary) + name + ANSI_RESET@
    } else {
        "Module: "@ + name
    }
}

pub open spec fn case_line(d: ReportDisplayView, c: TestCaseResult) -> Seq<char> {
    let ind = if mode_uses_ansi(d.mode) {
        fg(status_color(c.status, d.theme)) + status_indicator(c.status, d.mode) + ANSI_RESET@
    } else {
        status_indicator(c.status, d.mode)
    };
    let timing = match c.duration_ms {
        Some(ms) => if d.show_timings { " ("@ + decimal(ms as nat) + "ms)"@ } else { Seq::empty() },
        None => Seq::empty(),
    };
    "  "@ + ind + " "@ + c.name@ + timing
}

pub open spec fn case_lines(d: ReportDisplayView, c: TestCaseResult) -> Seq<Seq<char>> {
    seq![case_line(d, c)] + match c.details {
        Some(x) => if c.status == TestStatus::Fail { seq!["    -> "@ + x@] } else { Seq::empty() },
        None => Seq::empty(),
    }
}

pub open spec fn module_lines(d: ReportDisplayView, m: TestModuleResult) -> Seq<Seq<char>> {
    seq![module_header(d, m.name@)] + crate::text::flatten(m.cases@.map_values(|c: TestCaseResult| case_lines(d, c)))
        + seq![Seq::<char>::empty()]
}

pub open spec fn summary_line(c: (nat, nat, nat, nat, Option<nat>)) -> Seq<char> {
    "Summary: "@ + decimal(c.1) + " passed, "@ + decimal(c.2) + " failed, "@ + decimal(c.3) + " skipped ("@ + decimal(c.0)
        + " total)"@ + match c.4 {
        Some(d) => " in "@ + decimal(d) + "ms"@,
        None => Seq::empty(),
    }
}

/// The lines of a rendered report, before the end is trimmed.
pub open spec fn report_lines(d: ReportDisplayView, ms: Seq<TestModuleResult>) -> Seq<Seq<char>> {
    let c = counts_of(all_cases(ms));
    report_title_lines(d) + crate::text::flatten(ms.map_values(|m: TestModuleResult| module_lines(d, m)))
        + (if d.show_summary { seq![summary_line(c)] } else { Seq::empty() })
        + (if d.show_progress && c.0 > 0 {
        seq!["Progress: "@ + progress_bar_text(c.1 as usize, c.2 as usize, c.3 as usize, c.0 as usize, d.progress_width, d.mode, d.theme)]
    } else {
        Seq::empty()
    })
}

fn sat_mul_exec(x: usize, y: usize) -> (r: usize)
    ensures
        r == sat_mul(x, y),
{
    match x.checked_mul(y) {
        Some(v) => v,
        None => usize::MAX,
    }
}

fn segment(s: &mut String, mode: OutputMode, color: &Color, c: char, n: usize)
    ensures
        final(s)@ == old(s)@ + bar_segment(mode, *color, c, n as nat),
{
    if mode.uses_ansi() {
        if n > 0 {
            let a = color.to_ansi_fg();
            push_str(s, a.as_str());
            let r = repeat_char(c, n);
            push_str(s, r.as_str());
            push_str(s, ANSI_RESET);
        }
    } else {
        let r = repeat_char(c, n);
        push_str(s, r.as_str());
    }
    assert(s@ =~= old(s)@ + bar_segment(mode, *color, c, n as nat));
}

fn cells_text(pass_len: usize, fail_len: usize, skip_len: usize, remaining: usize, mode: OutputMode, theme: &FastApiTheme) -> (s: String)
    requires
        skip_len + remaining <= usize::MAX,
    ensures
        s@ == bar_cells(pass_len, fail_len, skip_len, remaining, mode, *theme),
{
    let mut s = String::new();
    if mode.uses_ansi() {
        segment(&mut s, mode, &theme.success, '=', pass_len);
        segment(&mut s, mode, &theme.error, '!', fail_len);
        segment(&mut s, mode, &theme.warning, '-', skip_len);
        segment(&mut s, mode, &theme.muted, '-', remaining);
    } else {
        let a = repeat_char('=', pass_len);
        push_str(&mut s, a.as_str());
        let b = repeat_char('!', fail_len);
        push_str(&mut s, b.as_str());
        let c = repeat_char('-', skip_len + remaining);
        push_str(&mut s, c.as_str());
    }
    assert(s@ =~= bar_cells(pass_len, fail_len, skip_len, remaining, mode, *theme));
    s
}

fn tallies_text(passed: usize, failed: usize, skipped: usize, total: usize) -> (s: String)
    ensures
        s@ == tallies(passed, failed, skipped, total),
{
    let mut s = String::from_str(" ");
    push_decimal(&mut s, passed as u64);
    push_str(&mut s, "/");
    push_decimal(&mut s, total as u64);
    push_str(&mut s, " passed");
    if failed > 0 {
        push_str(&mut s, ", ");
        push_decimal(&mut s, failed as u64);
        push_str(&mut s, " failed");
    }
    if skipped > 0 {
        push_str(&mut s, ", ");
        push_decimal(&mut s, skipped as u64);
        push_str(&mut s, " skipped");
    }
    assert(s@ =~= tallies(passed, failed, skipped, total));
    s
}

/// The progress bar of a run.
pub fn progress_bar(passed: usize, failed: usize, skipped: usize, total: usize, width: usize, mode: OutputMode, theme: &FastApiTheme) -> (s: String)
    ensures
        s@ == progress_bar_text(passed, failed, skipped, total, width, mode, *theme),
{
    if total == 0 {
        return String::from_str("[no tests]");
    }
    let width = if width < 8 { 8 } else { width };
    let pass_len = sat_mul_exec(passed, width) / total;
    let fail_len = sat_mul_exec(failed, width) / total;
    let skip_len = sat_mul_exec(skipped, width) / total;
    let used = pass_len.saturating_add(fail_len).saturating_add(skip_len);
    let remaining = width.saturating_sub(used);
    assert(skip_len + remaining <= usize::MAX);
    let mut bar = String::from_str("[");
    let cells = cells_text(pass_len, fail_len, skip_len, remaining, mode, theme);
    push_str(&mut bar, cells.as_str());
    push_str(&mut bar, "]");
    let t = tallies_text(passed, failed, skipped, total);
    push_str(&mut bar, t.as_str());
    assert(bar@ =~= progress_bar_text(passed, failed, skipped, total, width, mode, *theme));
    bar
}

/// `s` without trailing white space.
fn trimmed_end(s: &String) -> (r: String)
    ensures
        r@ == trim_end(s@),
{
    let cs = chars_of(s.as_str());
    let mut hi = cs.len();
    assert(cs@.subrange(0, hi as int) =~= cs@);
    while hi > 0 && char_is_space(cs[hi - 1])
        invariant
            hi <= cs@.len(),
            cs@ == s@,
            trim_end(s@) == trim_end(cs@.subrange(0, hi as int)),
        decreases hi,
    {
        assert(cs@.subrange(0, hi - 1) =~= cs@.subrange(0, hi as int).drop_last());
        hi -= 1;
    }
    let kept = crate::text::slice_chars(cs.as_slice(), 0, hi);
    string_from_chars(kept.as_slice())
}

impl TestReportDisplay {
    /// A display in `mode` with the default theme, timings, summary and a
    /// 24-cell progress bar, titled "Test Results".
    pub fn new(mode: OutputMode) -> (d: Self)
        ensures
            d@ == (ReportDisplayView {
                mode,
                theme: fastapi_palette(),
                show_timings: true,
                show_summary: true,
                show_progress: true,
                progress_width: 24,
                title: Some("Test Results"@),
            }),
    {
        TestReportDisplay {
            mode,
            theme: FastApiTheme::fastapi(),
            show_timings: true,
            show_summary: true,
            show_progress: true,
            progress_width: 24,
            title: Some(String::from_str("Test Results")),
        }
    }

    pub fn theme(self, theme: FastApiTheme) -> (d: Self)
        ensures
            d@ == (ReportDisplayView { theme, ..self@ }),
    {
        TestReportDisplay { theme, ..self }
    }

    pub fn hide_timings(self) -> (d: Self)
        ensures
            d@ == (ReportDisplayView { show_timings: false, ..self@ }),
    {
        TestReportDisplay { show_timings: false, ..self }
    }

    pub fn hide_summary(self) -> (d: Self)
        ensures
            d@ == (ReportDisplayView { show_summary: false, ..self@ }),
    {
        TestReportDisplay { show_summary: false, ..self }
    }

    pub fn hide_progress(self) -> (d: Self)
        ensures
            d@ == (ReportDisplayView { show_progress: false, ..self@ }),
    {
        TestReportDisplay { show_progress: false, ..self }
    }

    /// Sets the bar width (at least eight).
    pub fn progress_width(self, width: usize) -> (d: Self)
        ensures
            d@ == (ReportDisplayView { progress_width: if width < 8 { 8 } else { width }, ..self@ }),
    {
        TestReportDisplay { progress_width: if width < 8 { 8 } else { width }, ..self }
    }

    /// Sets the title (`None` for no title).
    pub fn title(self, title: Option<String>) -> (d: Self)
        ensures
            d@ == (ReportDisplayView {
                title: match title {
                    Some(t) => Some(t@),
                    None => None,
                },
                ..self@
            }),
    {
        TestReportDisplay { title, ..self }
    }

    fn module_header_text(&self, name: &str) -> (s: String)
        ensures
            s@ == module_header(self@, name@),
    {
        let mut s = String::new();
        if self.mode.uses_ansi() {
            let a = self.theme.accent.to_ansi_fg();
            push_str(&mut s, a.as_str());
            push_str(&mut s, "Module:");
            push_str(&mut s, ANSI_RESET);
            push_str(&mut s, " ");
            let p = self.theme.primary.to_ansi_fg();
            push_str(&mut s, p.as_str());
            push_str(&mut s, name);
            push_str(&mut s, ANSI_RESET);
        } else {
            push_str(&mut s, "Module: ");
            push_str(&mut s, name);
        }
        assert(s@ =~= module_header(self@, name@));
        s
    }

    fn case_text(&self, case: &TestCaseResult) -> (s: String)
        ensures
            s@ == case_line(self@, *case),
    {
        let ind = case.status.indicator(self.mode);
        let mut s = String::from_str("  ");
        if self.mode.uses_ansi() {
            let c = case.status.color(&self.theme).to_ansi_fg();
            push_str(&mut s, c.as_str());
            push_str(&mut s, ind);
            push_str(&mut s, ANSI_RESET);
        } else {
            push_str(&mut s, ind);
        }
        push_str(&mut s, " ");
        push_str(&mut s, case.name.as_str());
        if self.show_timings {
            if let Some(ms) = case.duration_ms {
                push_str(&mut s, " (");
                push_decimal_u128(&mut s, ms);
                push_str(&mut s, "ms)");
            }
        }
        assert(s@ =~= case_line(self@, *case));
        s
    }

    fn module_block(&self, m: &TestModuleResult) -> (v: Vec<String>)
        ensures
            strings_view(v@) == module_lines(self@, *m),
    {
        let mut v: Vec<String> = Vec::new();
        push_line(&mut v, self.module_header_text(m.name.as_str()));
        let ghost head = strings_view(v@);
        let mut j: usize = 0;
        while j < m.cases.len()
            invariant
                j <= m.cases@.len(),
                strings_view(v@) == head + crate::text::flatten(m.cases@.take(j as int).map_values(|c: TestCaseResult| case_lines(self@, c))),
            decreases m.cases@.len() - j,
        {
            let case = &m.cases[j];
            push_line(&mut v, self.case_text(case));
            if case.status == TestStatus::Fail {
                if let Some(d) = &case.details {
                    let mut l = String::from_str("    -> ");
                    push_str(&mut l, d.as_str());
                    push_line(&mut v, l);
                }
            }
            assert(m.cases@.take(j + 1).map_values(|c: TestCaseResult| case_lines(self@, c)).drop_last()
                =~= m.cases@.take(j as int).map_values(|c: TestCaseResult| case_lines(self@, c)));
            j += 1;
            assert(strings_view(v@) =~= head + crate::text::flatten(m.cases@.take(j as int).map_values(|c: TestCaseResult| case_lines(self@, c))));
        }
        assert(m.cases@.take(m.cases@.len() as int) =~= m.cases@);
        push_line(&mut v, String::new());
        assert(strings_view(v@) =~= module_lines(self@, *m));
        v
    }

    /// Renders a report: title, each module with its cases (details under
    /// failures), the summary and the progress bar; trailing white space is
    /// trimmed.
    #[verifier::rlimit(40)]
    pub fn render(&self, report: &TestReport) -> (s: String)
        requires
            counts_fit(report.modules@),
        ensures
            s@ == trim_end(join_with(report_lines(self@, report.modules@), "\n"@)),
    {
        let mut lines: Vec<String> = Vec::new();
        assert(strings_view(lines@) =~= Seq::<Seq<char>>::empty());
        if let Some(title) = &self.title {
            push_line(&mut lines, title.clone());
            let n = title.as_str().as_bytes().len();
            push_line(&mut lines, repeat_char('-', n));
        }
        let ghost head = strings_view(lines@);
        assert(head =~= report_title_lines(self@));
        let ghost ms = report.modules@;
        let mut i: usize = 0;
        while i < report.modules.len()
            invariant
                i <= ms.len(),
                ms == report.modules@,
                strings_view(lines@) == head + crate::text::flatten(ms.take(i as int).map_values(|m: TestModuleResult| module_lines(self@, m))),
            decreases ms.len() - i,
        {
            let block = self.module_block(&report.modules[i]);
            crate::text::append_lines(&mut lines, block);
            assert(ms.take(i + 1).map_values(|m: TestModuleResult| module_lines(self@, m)).drop_last()
                =~= ms.take(i as int).map_values(|m: TestModuleResult| module_lines(self@, m)));
            i += 1;
        }
        assert(ms.take(ms.len() as int) =~= ms);
        let ghost body = strings_view(lines@);
        let counts = report.counts();
        if self.show_summary {
            let mut l = String::from_str("Summary: ");
            push_decimal(&mut l, counts.passed as u64);
            push_str(&mut l, " passed, ");
            push_decimal(&mut l, counts.failed as u64);
            push_str(&mut l, " failed, ");
            push_decimal(&mut l, counts.skipped as u64);
            push_str(&mut l, " skipped (");
            push_decimal(&mut l, counts.total as u64);
            push_str(&mut l, " total)");
            if let Some(d) = counts.duration_ms {
                push_str(&mut l, " in ");
                push_decimal_u128(&mut l, d);
                push_str(&mut l, "ms");
            }
            assert(l@ =~= summary_line(counts_of(all_cases(ms))));
            push_line(&mut lines, l);
        }
        let ghost with_summary = strings_view(lines@);
        if self.show_progress && counts.total > 0 {
            let mut l = String::from_str("Progress: ");
            let bar = progress_bar(counts.passed, counts.failed, counts.skipped, counts.total, self.progress_width, self.mode, &self.theme);
            push_str(&mut l, bar.as_str());
            push_line(&mut lines, l);
        }
        assert(strings_view(lines@) =~= report_lines(self@, ms));
        let joined = join_strings(&lines, "\n");
        trimmed_end(&joined)
    }
}

} // verus!

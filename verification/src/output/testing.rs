//! Checks on rendered output for tests: ANSI stripping, containment, width.
//!
//! Each `assert_*` function states its condition as a precondition; called
//! from code that Verus does not check, it tests the condition and panics
//! with a message when it fails.
use vstd::prelude::*;
use regex::Regex;
use unicode_width::UnicodeWidthStr;
use crate::output::http_inspector::{text_lines, vecs_chars};
use crate::output::mode::OutputMode;
use crate::text::{chars_of, has_substr, join_strings, join_with, occurs_at, string_from_chars, strings_view};

verus! {

/// How a captured line of output is classified.
#[derive(Debug, Clone, Copy, PartialEq, Eq, Structural)]
pub enum OutputLevel {
    Debug,
    Info,
    Success,
    Warning,
    Error,
}

#[verifier::external_type_specification]
#[verifier::external_body]
pub struct ExInstant(std::time::Instant);

/// One captured piece of output.
#[derive(Debug)]
pub struct OutputEntry {
    /// Text without escape codes.
    pub content: String,
    /// When it was written.
    pub timestamp: std::time::Instant,
    /// Its level.
    pub level: OutputLevel,
    /// The component that wrote it, if known.
    pub component: Option<String>,
    /// Text as written, escape codes included.
    pub raw_ansi: String,
}

/// Two entries hold the same texts, level, component and time.
pub open spec fn same_entry(a: OutputEntry, b: OutputEntry) -> bool {
    &&& a.content@ == b.content@
    &&& a.timestamp == b.timestamp
    &&& a.level == b.level
    &&& match (a.component, b.component) {
        (Some(x), Some(y)) => x@ == y@,
        (None, None) => true,
        _ => false,
    }
    &&& a.raw_ansi@ == b.raw_ansi@
}

impl OutputEntry {
    /// A copy of the entry.
    pub fn copy(&self) -> (e: Self)
        ensures
            same_entry(e, *self),
    {
        OutputEntry {
            content: self.content.clone(),
            timestamp: self.timestamp,
            level: self.level,
            component: match &self.component {
                Some(c) => Some(c.clone()),
                None => None,
            },
            raw_ansi: self.raw_ansi.clone(),
        }
    }
}

/// Collects output for assertions in tests.
#[derive(Debug)]
pub struct TestOutput {
    mode: OutputMode,
    buffer: Vec<OutputEntry>,
    terminal_width: usize,
}

pub struct TestOutputView {
    pub mode: OutputMode,
    pub entries: Seq<OutputEntry>,
    pub terminal_width: usize,
}

impl View for TestOutput {
    type V = TestOutputView;

    closed spec fn view(&self) -> TestOutputView {
        TestOutputView { mode: self.mode, entries: self.buffer@, terminal_width: self.terminal_width }
    }
}

/// The contents (or the raw texts) of the entries.
pub open spec fn entry_texts(es: Seq<OutputEntry>, raw: bool) -> Seq<Seq<char>> {
    es.map_values(|e: OutputEntry| if raw {
        e.raw_ansi@
    } else {
        e.content@
    })
}

/// The number of entries at `level`.
pub open spec fn level_count(es: Seq<OutputEntry>, level: OutputLevel) -> nat
    decreases es.len(),
{
    if es.len() == 0 {
        0
    } else {
        level_count(es.drop_last(), level) + if es.last().level == level {
            1nat
        } else {
            0nat
        }
    }
}

impl TestOutput {
    /// An empty capture, 80 columns wide.
    pub fn new(mode: OutputMode) -> (t: Self)
        ensures
            t@ == (TestOutputView { mode, entries: Seq::empty(), terminal_width: 80 }),
    {
        let t = TestOutput { mode, buffer: Vec::new(), terminal_width: 80 };
        assert(t@.entries =~= Seq::<OutputEntry>::empty());
        t
    }

    /// An empty capture of the given width.
    pub fn with_width(mode: OutputMode, width: usize) -> (t: Self)
        ensures
            t@ == (TestOutputView { mode, entries: Seq::empty(), terminal_width: width }),
    {
        let t = TestOutput { mode, buffer: Vec::new(), terminal_width: width };
        assert(t@.entries =~= Seq::<OutputEntry>::empty());
        t
    }

    pub fn mode(&self) -> (m: OutputMode)
        ensures
            m == self@.mode,
    {
        self.mode
    }

    pub fn terminal_width(&self) -> (w: usize)
        ensures
            w == self@.terminal_width,
    {
        self.terminal_width
    }

    /// Records an entry.
    pub fn push(&mut self, entry: OutputEntry)
        ensures
            final(self)@ == (TestOutputView { entries: old(self)@.entries.push(entry), ..old(self)@ }),
    {
        self.buffer.push(entry);
    }

    fn texts(&self, raw: bool) -> (v: Vec<String>)
        ensures
            strings_view(v@) == entry_texts(self@.entries, raw),
    {
        let mut v: Vec<String> = Vec::new();
        let mut i: usize = 0;
        while i < self.buffer.len()
            invariant
                i <= self.buffer@.len(),
                strings_view(v@) == entry_texts(self.buffer@.take(i as int), raw),
            decreases self.buffer@.len() - i,
        {
            let e = &self.buffer[i];
            let t = if raw {
                e.raw_ansi.clone()
            } else {
                e.content.clone()
            };
            let ghost prev = v@;
            v.push(t);
            i += 1;
            proof {
                assert(strings_view(v@) =~= strings_view(prev).push(t@));
                assert(entry_texts(self.buffer@.take(i as int), raw) =~= entry_texts(self.buffer@.take(i - 1), raw).push(t@));
            }
        }
        assert(self.buffer@.take(self.buffer@.len() as int) =~= self.buffer@);
        v
    }

    /// The captured contents, one entry per line.
    pub fn captured(&self) -> (s: String)
        ensures
            s@ == join_with(entry_texts(self@.entries, false), "\n"@),
    {
        let v = self.texts(false);
        join_strings(&v, "\n")
    }

    /// The captured raw texts, escape codes included, one entry per line.
    pub fn captured_raw(&self) -> (s: String)
        ensures
            s@ == join_with(entry_texts(self@.entries, true), "\n"@),
    {
        let v = self.texts(true);
        join_strings(&v, "\n")
    }

    /// Copies of the entries.
    pub fn entries(&self) -> (v: Vec<OutputEntry>)
        ensures
            v@.len() == self@.entries.len(),
            forall|i: int| 0 <= i < v@.len() ==> same_entry(#[trigger] v@[i], self@.entries[i]),
    {
        let mut v: Vec<OutputEntry> = Vec::new();
        let mut i: usize = 0;
        while i < self.buffer.len()
            invariant
                i <= self.buffer@.len(),
                v@.len() == i,
                forall|j: int| 0 <= j < i ==> same_entry(#[trigger] v@[j], self.buffer@[j]),
            decreases self.buffer@.len() - i,
        {
            v.push(self.buffer[i].copy());
            i += 1;
        }
        v
    }

    /// Forgets every entry.
    pub fn clear(&mut self)
        ensures
            final(self)@ == (TestOutputView { entries: Seq::empty(), ..old(self)@ }),
    {
        self.buffer.clear();
    }

    /// The number of entries at `level`.
    pub fn count_by_level(&self, level: OutputLevel) -> (n: usize)
        ensures
            n == level_count(self@.entries, level),
    {
        let mut n: usize = 0;
        let mut i: usize = 0;
        while i < self.buffer.len()
            invariant
                i <= self.buffer@.len(),
                n == level_count(self.buffer@.take(i as int), level),
                n <= i,
            decreases self.buffer@.len() - i,
        {
            proof {
                assert(self.buffer@.take(i + 1).drop_last() =~= self.buffer@.take(i as int));
            }
            if self.buffer[i].level == level {
                n += 1;
            }
            i += 1;
        }
        assert(self.buffer@.take(self.buffer@.len() as int) =~= self.buffer@);
        n
    }
}

/// The number of digits and `;` from index `j` on.
pub open spec fn csi_params_len(s: Seq<char>, j: int) -> nat
    decreases s.len() - j,
{
    if 0 <= j < s.len() && (('0' <= s[j] && s[j] <= '9') || s[j] == ';') {
        1 + csi_params_len(s, j + 1)
    } else {
        0
    }
}

pub open spec fn is_ascii_letter(c: char) -> bool {
    ('a' <= c && c <= 'z') || ('A' <= c && c <= 'Z')
}

/// The text from index `i` on with every ANSI escape sequence removed,
/// scanning left to right: at `ESC [` followed by digits or `;` and a
/// letter, the whole sequence goes; any other character stays.
pub open spec fn stripped_from(s: Seq<char>, i: int) -> Seq<char>
    decreases s.len() - i,
{
    if i < 0 || i >= s.len() {
        Seq::empty()
    } else {
        let e = i + 2 + csi_params_len(s, i + 2);
        if i + 1 < s.len() && s[i] == '\x1b' && s[i + 1] == '[' && e < s.len() && is_ascii_letter(s[e]) {
            stripped_from(s, e + 1)
        } else {
            seq![s[i]] + stripped_from(s, i + 1)
        }
    }
}

/// The text that removing every ANSI escape sequence (`ESC [`, digits or
/// `;`, a letter) leaves.
pub open spec fn ansi_stripped(s: Seq<char>) -> Seq<char> {
    stripped_from(s, 0)
}

/// A text without an escape character loses nothing.
pub proof fn lemma_stripped_without_escape(s: Seq<char>, i: int)
    requires
        !s.contains('\x1b'),
        0 <= i <= s.len(),
    ensures
        stripped_from(s, i) == s.skip(i),
    decreases s.len() - i,
{
    if i < s.len() {
        assert(s[i] != '\x1b') by {
            if s[i] == '\x1b' {
                assert(s.contains('\x1b'));
            }
        }
        lemma_stripped_without_escape(s, i + 1);
        assert(seq![s[i]] + s.skip(i + 1) =~= s.skip(i));
    } else {
        assert(s.skip(i) =~= Seq::<char>::empty());
    }
}

/// The displayed width of a text in terminal columns.
pub uninterp spec fn display_width(s: Seq<char>) -> nat;

/// Removes ANSI escape sequences with the regular expression
/// `\x1b\[[0-9;]*[a-zA-Z]` (`regex::Regex::replace_all`): the leftmost
/// matches, one after another without overlap, are dropped. The two classes
/// of the pattern share no character, so a match is fixed by where it
/// starts, which is what `ansi_stripped` spells out.
#[verifier::external_body]
pub fn strip_ansi_codes(input: &str) -> (r: String)
    ensures
        r@ == ansi_stripped(input@),
{
    let re = Regex::new(r"\x1b\[[0-9;]*[a-zA-Z]").expect("invalid ANSI regex");
    re.replace_all(input, "").to_string()
}

/// The displayed width of a text (`unicode_width::UnicodeWidthStr::width`).
#[verifier::external_body]
fn text_width(s: &str) -> (w: usize)
    ensures
        w == display_width(s@),
{
    UnicodeWidthStr::width(s)
}

/// `ESC [` occurs in the text.
pub open spec fn has_ansi(s: Seq<char>) -> bool {
    has_substr(s, seq!['\x1b', '['])
}

fn occurs_at_exec(s: &[char], t: &[char], i: usize) -> (r: bool)
    requires
        i <= s@.len(),
    ensures
        r == occurs_at(s@, t@, i as int),
{
    let n = s.len();
    if t.len() > n - i {
        return false;
    }
    let mut j: usize = 0;
    while j < t.len()
        invariant
            n == s@.len(),
            j <= t@.len(),
            i + t@.len() <= s@.len(),
            forall|k: int| 0 <= k < j ==> s@[i + k] == t@[k],
        decreases t@.len() - j,
    {
        if s[i + j] != t[j] {
            assert(s@.subrange(i as int, i + t@.len())[j as int] != t@[j as int]);
            return false;
        }
        j += 1;
    }
    assert(s@.subrange(i as int, i + t@.len()) =~= t@);
    true
}

/// The first position at or after `from` where `t` occurs in `s`.
pub open spec fn find_text(s: Seq<char>, t: Seq<char>, from: int) -> Option<int>
    decreases s.len() + 1 - from,
{
    if from < 0 || from > s.len() {
        None
    } else if occurs_at(s, t, from) {
        Some(from)
    } else {
        find_text(s, t, from + 1)
    }
}

proof fn lemma_find_text(s: Seq<char>, t: Seq<char>, from: int)
    requires
        0 <= from,
    ensures
        find_text(s, t, from) matches Some(i) ==> from <= i && occurs_at(s, t, i),
        find_text(s, t, from) is None ==> forall|i: int| from <= i ==> !occurs_at(s, t, i),
    decreases s.len() + 1 - from,
{
    if from <= s.len() && !occurs_at(s, t, from) {
        lemma_find_text(s, t, from + 1);
    }
    if from > s.len() {
        assert forall|i: int| from <= i implies !occurs_at(s, t, i) by {}
    }
}

fn find_text_from(s: &[char], t: &[char], from: usize) -> (r: Option<usize>)
    requires
        from <= s@.len(),
    ensures
        match r {
            Some(i) => find_text(s@, t@, from as int) == Some(i as int) && i <= s@.len(),
            None => find_text(s@, t@, from as int) is None,
        },
{
    let mut i = from;
    while i <= s.len()
        invariant
            from <= i <= s@.len() + 1,
            find_text(s@, t@, from as int) == find_text(s@, t@, i as int),
        decreases s@.len() + 1 - i,
    {
        if occurs_at_exec(s, t, i) {
            return Some(i);
        }
        if i == s.len() {
            assert(find_text(s@, t@, i + 1) is None);
            return None;
        }
        i += 1;
    }
    None
}

/// `t` occurs in `s`.
fn contains_text(s: &[char], t: &[char]) -> (r: bool)
    ensures
        r == has_substr(s@, t@),
{
    proof {
        lemma_find_text(s@, t@, 0);
    }
    match find_text_from(s, t, 0) {
        Some(_) => true,
        None => false,
    }
}

/// The texts occur in `s` one after the other, each searched for from the
/// end of the previous match.
pub open spec fn in_order_from(s: Seq<char>, items: Seq<Seq<char>>, from: int) -> bool
    decreases items.len(),
{
    if items.len() == 0 {
        true
    } else {
        match find_text(s, items[0], from) {
            Some(i) => in_order_from(s, items.drop_first(), i + items[0].len()),
            None => false,
        }
    }
}

pub open spec fn strs_of<'a>(v: Seq<&'a str>) -> Seq<Seq<char>> {
    v.map_values(|x: &'a str| x@)
}

fn stripped_contains(output: &str, expected: &str) -> (r: bool)
    ensures
        r == has_substr(ansi_stripped(output@), expected@),
{
    let stripped = strip_ansi_codes(output);
    let s = chars_of(stripped.as_str());
    let t = chars_of(expected);
    contains_text(s.as_slice(), t.as_slice())
}

/// Asserts that the output, stripped of ANSI codes, contains `expected`.
pub fn assert_contains(output: &str, expected: &str)
    requires
        has_substr(ansi_stripped(output@), expected@),
{
    let found: Option<()> = if stripped_contains(output, expected) { Some(()) } else { None };
    found.expect("Expected output to contain the text");
}

/// Asserts that the output, stripped of ANSI codes, does not contain
/// `unexpected`.
pub fn assert_not_contains(output: &str, unexpected: &str)
    requires
        !has_substr(ansi_stripped(output@), unexpected@),
{
    let clean: Option<()> = if stripped_contains(output, unexpected) { None } else { Some(()) };
    clean.expect("Expected output to NOT contain the text");
}

/// Whether the output, stripped of ANSI codes, contains `expected`; the
/// assertion is made where it holds.
pub fn output_contains(output: &str, expected: &str) -> (r: bool)
    ensures
        r == has_substr(ansi_stripped(output@), expected@),
{
    let r = stripped_contains(output, expected);
    if r {
        assert_contains(output, expected);
    } else {
        assert_not_contains(output, expected);
    }
    r
}

/// Asserts that the output has no ANSI escape codes (plain mode).
pub fn assert_no_ansi(output: &str)
    requires
        !has_ansi(output@),
{
    let s = chars_of(output);
    let esc: [char; 2] = ['\x1b', '['];
    assert(esc@ =~= seq!['\x1b', '[']);
    let clean: Option<()> = if contains_text(s.as_slice(), &esc) { None } else { Some(()) };
    clean.expect("Found ANSI escape codes in output that should be plain");
}

/// Asserts that the output has ANSI escape codes (rich mode).
pub fn assert_has_ansi(output: &str)
    requires
        has_ansi(output@),
{
    let s = chars_of(output);
    let esc: [char; 2] = ['\x1b', '['];
    assert(esc@ =~= seq!['\x1b', '[']);
    let found: Option<()> = if contains_text(s.as_slice(), &esc) { Some(()) } else { None };
    found.expect("Expected ANSI escape codes in rich output but found none");
}

/// Every line of the output, stripped of ANSI codes, is at most
/// `max_width` columns wide.
pub open spec fn lines_within(s: Seq<char>, max_width: nat) -> bool {
    forall|i: int| 0 <= i < text_lines(s).len() ==> display_width(#[trigger] text_lines(s)[i]) <= max_width
}

fn stripped_within(output: &str, max_width: usize) -> (r: bool)
    ensures
        r == lines_within(ansi_stripped(output@), max_width as nat),
{
    let stripped = strip_ansi_codes(output);
    let cs = chars_of(stripped.as_str());
    let lines = crate::output::http_inspector::split_lines(cs.as_slice());
    let ghost tl = text_lines(ansi_stripped(output@));
    let mut i: usize = 0;
    while i < lines.len()
        invariant
            i <= lines@.len(),
            vecs_chars(lines@) == tl,
            tl == text_lines(ansi_stripped(output@)),
            forall|j: int| 0 <= j < i ==> display_width(#[trigger] tl[j]) <= max_width,
        decreases lines@.len() - i,
    {
        let line = string_from_chars(lines[i].as_slice());
        assert(line@ == tl[i as int]);
        let w = text_width(line.as_str());
        if w > max_width {
            return false;
        }
        i += 1;
    }
    true
}

/// Asserts that every line is at most `max_width` columns wide.
pub fn assert_max_width(output: &str, max_width: usize)
    requires
        lines_within(ansi_stripped(output@), max_width as nat),
{
    let ok: Option<()> = if stripped_within(output, max_width) { Some(()) } else { None };
    ok.expect("Line exceeds max width");
}

/// Whether every line of the output is at most `max_width` columns wide;
/// the assertion is made where it holds.
pub fn output_within_width(output: &str, max_width: usize) -> (r: bool)
    ensures
        r == lines_within(ansi_stripped(output@), max_width as nat),
{
    let r = stripped_within(output, max_width);
    if r {
        assert_max_width(output, max_width);
    }
    r
}

fn stripped_in_order(output: &str, expected: &[&str]) -> (r: bool)
    ensures
        r == in_order_from(ansi_stripped(output@), strs_of(expected@), 0),
{
    let stripped = strip_ansi_codes(output);
    let s = chars_of(stripped.as_str());
    let slen = s.len();
    let mut last: usize = 0;
    let mut k: usize = 0;
    assert(strs_of(expected@).skip(0) =~= strs_of(expected@));
    while k < expected.len()
        invariant
            k <= expected@.len(),
            last <= s@.len(),
            slen == s@.len(),
            s@ == ansi_stripped(output@),
            in_order_from(s@, strs_of(expected@), 0) == in_order_from(s@, strs_of(expected@).skip(k as int), last as int),
        decreases expected@.len() - k,
    {
        let t = chars_of(expected[k]);
        let ghost rest = strs_of(expected@).skip(k as int);
        assert(rest[0] == expected@[k as int]@);
        assert(rest.drop_first() =~= strs_of(expected@).skip(k + 1));
        proof {
            lemma_find_text(s@, t@, last as int);
        }
        match find_text_from(s.as_slice(), t.as_slice(), last) {
            Some(p) => {
                last = p + t.len();
            },
            None => {
                return false;
            },
        }
        k += 1;
    }
    assert(strs_of(expected@).skip(k as int) =~= Seq::<Seq<char>>::empty());
    true
}

/// Asserts that the expected texts occur in order in the output, stripped
/// of ANSI codes.
pub fn assert_contains_in_order(output: &str, expected: &[&str])
    requires
        in_order_from(ansi_stripped(output@), strs_of(expected@), 0),
{
    let ok: Option<()> = if stripped_in_order(output, expected) { Some(()) } else { None };
    ok.expect("Expected text not found in order");
}

/// Whether the expected texts occur in order in the output; the assertion
/// is made where it holds.
pub fn output_in_order(output: &str, expected: &[&str]) -> (r: bool)
    ensures
        r == in_order_from(ansi_stripped(output@), strs_of(expected@), 0),
{
    let r = stripped_in_order(output, expected);
    if r {
        assert_contains_in_order(output, expected);
    }
    r
}

} // verus!

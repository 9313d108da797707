//! HTTP request and response inspectors: multi-line views of a request or a
//! response with headers, a body preview and timing.
use vstd::prelude::*;
use vstd::utf8::*;
use crate::duration::{duration_text, format_duration, Duration};
use crate::multipart::headers_view;
use crate::output::mode::OutputMode;
use crate::output::routing_debug::{edge, opt_lines, separator, ANSI_BOLD};
use crate::output::shutdown_progress::{fg, ANSI_RESET};
use crate::output::themes::{ansi_rgb, fastapi_palette, method_color, status_color, Color, FastApiTheme};
use crate::scan::copy_range;
use crate::text::{
    append_lines, chars_of, decimal, find_char, find_char_from, join_strings, join_with, lemma_find_char_bounds, lemma_find_char_shift, push_decimal, push_line, push_str, repeat_char, slice_chars, string_from_chars, strings_view, unicode_uppercase, utf8_str,
};
use crate::output::themes::repeat_spec;

verus! {

/// The escape for dim text.
pub const ANSI_DIM: &'static str = "\x1b[2m";

/// Default longest body preview, in bytes.
pub const DEFAULT_BODY_PREVIEW_LEN: usize = 512;

// ---------------------------------------------------------------------------
// Text helpers
// ---------------------------------------------------------------------------

/// A line without the carriage return of a CRLF ending.
pub open spec fn strip_cr(p: Seq<char>) -> Seq<char> {
    if p.len() > 0 && p.last() == '\r' { p.drop_last() } else { p }
}

/// The lines of a text (`str::lines`): split at `\n`, a `\r` before the
/// `\n` dropped, no empty line after a final `\n`.
pub open spec fn text_lines(s: Seq<char>) -> Seq<Seq<char>>
    decreases s.len(),
{
    if s.len() == 0 {
        Seq::empty()
    } else {
        match find_char(s, '\n', 0) {
            Some(i) => if 0 <= i < s.len() {
                seq![strip_cr(s.take(i))] + text_lines(s.skip(i + 1))
            } else {
                seq![s]
            },
            None => seq![s],
        }
    }
}

pub open spec fn vecs_chars(v: Seq<Vec<char>>) -> Seq<Seq<char>> {
    v.map_values(|x: Vec<char>| x@)
}

pub(crate) fn split_lines(cs: &[char]) -> (r: Vec<Vec<char>>)
    ensures
        vecs_chars(r@) == text_lines(cs@),
{
    let mut out: Vec<Vec<char>> = Vec::new();
    let mut start: usize = 0;
    let n = cs.len();
    assert(cs@.skip(0) == cs@);
    loop
        invariant
            start <= n == cs.len(),
            vecs_chars(out@) + text_lines(cs@.skip(start as int)) == text_lines(cs@),
        decreases n - start,
    {
        let ghost rest = cs@.skip(start as int);
        let ghost before = vecs_chars(out@);
        if start == n {
            assert(rest.len() == 0);
            assert(vecs_chars(out@) =~= text_lines(cs@));
            return out;
        }
        proof {
            lemma_find_char_bounds(cs@, '\n', start as int);
            lemma_find_char_bounds(rest, '\n', 0);
            lemma_find_char_shift(cs@, '\n', start as int);
        }
        match find_char_from(cs, '\n', start) {
            Some(j) => {
                let mut end = j;
                if end > start && cs[end - 1] == '\r' {
                    end = end - 1;
                }
                let piece = slice_chars(cs, start, end);
                assert(piece@ == strip_cr(rest.take(j - start)));
                out.push(piece);
                assert(vecs_chars(out@) =~= before.push(strip_cr(rest.take(j - start))));
                assert(rest.skip(j - start + 1) == cs@.skip(j + 1));
                assert(before + text_lines(rest) =~= vecs_chars(out@) + text_lines(cs@.skip(j + 1)));
                start = j + 1;
            },
            None => {
                let piece = slice_chars(cs, start, n);
                out.push(piece);
                assert(rest == cs@.subrange(start as int, n as int));
                assert(vecs_chars(out@) =~= before + seq![rest]);
                return out;
            },
        }
    }
}

/// The UTF-8 length of a text.
pub open spec fn byte_len(s: Seq<char>) -> nat {
    encode_utf8(s).len()
}

/// The first `n` bytes of a text, when `n` ends a character.
pub open spec fn byte_prefix(s: Seq<char>, n: int) -> Seq<char> {
    decode_utf8(encode_utf8(s).take(n))
}

/// A text longer than `limit` bytes cut to `keep` bytes and `...`.
pub open spec fn shortened(s: Seq<char>, limit: nat, keep: int) -> Seq<char> {
    if byte_len(s) > limit { byte_prefix(s, keep) + "..."@ } else { s }
}

/// Cutting a text of more than `limit` bytes at `keep` bytes falls on a
/// character boundary.
pub open spec fn cuts_cleanly(s: Seq<char>, limit: nat, keep: int) -> bool {
    byte_len(s) > limit ==> is_char_boundary(encode_utf8(s), keep)
}

fn shorten(s: &str, limit: usize, keep: usize) -> (r: String)
    requires
        keep <= limit,
        cuts_cleanly(s@, limit as nat, keep as int),
    ensures
        r@ == shortened(s@, limit as nat, keep as int),
{
    let b = s.as_bytes();
    if b.len() > limit {
        let p = copy_range(b, 0, keep);
        proof {
            encode_utf8_valid_utf8(s@);
            valid_utf8_split(b@, keep as int);
            assert(p@ == b@.subrange(0, keep as int));
        }
        let mut r = match utf8_str(p.as_slice()) {
            Some(t) => String::from_str(t),
            None => {
                assert(false);
                String::new()
            },
        };
        push_str(&mut r, "...");
        r
    } else {
        String::from_str(s)
    }
}

/// A text padded with spaces to `w` characters.
pub open spec fn padded(s: Seq<char>, w: nat) -> Seq<char> {
    if s.len() < w { s + repeat_spec(' ', (w - s.len()) as nat) } else { s }
}

fn pad_to(s: &String, w: usize) -> (r: String)
    ensures
        r@ == padded(s@, w as nat),
{
    let cs = chars_of(s.as_str());
    let mut r = s.clone();
    assert(r@ == s@);
    if cs.len() < w {
        let sp = repeat_char(' ', w - cs.len());
        push_str(&mut r, sp.as_str());
    }
    r
}

/// The longest header name, in bytes.
pub open spec fn longest_name(hs: Seq<(Seq<char>, Seq<char>)>) -> nat
    decreases hs.len(),
{
    if hs.len() == 0 {
        0
    } else {
        let m = longest_name(hs.drop_last());
        let l = byte_len(hs.last().0);
        if l > m { l } else { m }
    }
}

/// The column width of header names: the longest, at most twenty.
pub open spec fn name_width(hs: Seq<(Seq<char>, Seq<char>)>) -> nat {
    let m = longest_name(hs);
    if m > 20 { 20 } else { m }
}

proof fn lemma_longest_name_bound(hs: Seq<(Seq<char>, Seq<char>)>, i: int)
    requires
        0 <= i < hs.len(),
    ensures
        byte_len(hs[i].0) <= longest_name(hs),
    decreases hs.len(),
{
    if i < hs.len() - 1 {
        lemma_longest_name_bound(hs.drop_last(), i);
    }
}

fn name_width_of(hs: &Vec<(String, String)>) -> (w: usize)
    ensures
        w == name_width(headers_view(hs@)),
        w <= 20,
{
    let mut m: usize = 0;
    let mut i: usize = 0;
    while i < hs.len()
        invariant
            i <= hs@.len(),
            m == longest_name(headers_view(hs@).take(i as int)),
        decreases hs@.len() - i,
    {
        let l = hs[i].0.as_str().as_bytes().len();
        assert(headers_view(hs@)[i as int].0 == hs@[i as int].0@);
        assert(l == byte_len(hs@[i as int].0@));
        assert(headers_view(hs@).take(i + 1).drop_last() =~= headers_view(hs@).take(i as int));
        assert(headers_view(hs@).take(i + 1).last() == headers_view(hs@)[i as int]);
        if l > m {
            m = l;
        }
        i += 1;
    }
    assert(headers_view(hs@).take(hs@.len() as int) =~= headers_view(hs@));
    if m > 20 { 20 } else { m }
}

/// Every header name that is too long for its column can be cut cleanly.
pub open spec fn names_cut_cleanly(hs: Seq<(Seq<char>, Seq<char>)>) -> bool {
    forall|i: int| 0 <= i < hs.len() ==> cuts_cleanly(#[trigger] hs[i].0, 20, 17)
}

/// Every shown line of a body preview that is too long can be cut cleanly.
pub open spec fn preview_cuts_cleanly(preview: Option<Seq<char>>) -> bool {
    match preview {
        Some(p) => lines_cut_cleanly(p),
        None => true,
    }
}

/// Every shown line of a text that is too long can be cut cleanly.
pub open spec fn lines_cut_cleanly(p: Seq<char>) -> bool {
    forall|i: int| 0 <= i < text_lines(p).len() && i < 5 ==> cuts_cleanly(#[trigger] text_lines(p)[i], 40, 37)
}

fn cut_is_clean(s: &str, limit: usize, keep: usize) -> (r: bool)
    ensures
        r == cuts_cleanly(s@, limit as nat, keep as int),
{
    s.as_bytes().len() <= limit || s.is_char_boundary(keep)
}

fn names_are_clean(hs: &Vec<(String, String)>) -> (r: bool)
    ensures
        r == names_cut_cleanly(headers_view(hs@)),
{
    let mut i: usize = 0;
    while i < hs.len()
        invariant
            i <= hs@.len(),
            forall|j: int| 0 <= j < i ==> cuts_cleanly(#[trigger] headers_view(hs@)[j].0, 20, 17),
        decreases hs@.len() - i,
    {
        assert(headers_view(hs@)[i as int].0 == hs@[i as int].0@);
        if !cut_is_clean(hs[i].0.as_str(), 20, 17) {
            return false;
        }
        i += 1;
    }
    true
}

fn preview_is_clean(preview: &Option<String>) -> (r: bool)
    ensures
        r == preview_cuts_cleanly(opt_view(*preview)),
{
    match preview {
        None => true,
        Some(p) => {
            assert(opt_view(*preview) == Some(p@));
            let cs = chars_of(p.as_str());
            let lines = split_lines(cs.as_slice());
            let mut i: usize = 0;
            while i < lines.len() && i < 5
                invariant
                    i <= lines@.len(),
                    vecs_chars(lines@) == text_lines(p@),
                    opt_view(*preview) == Some(p@),
                    forall|j: int| 0 <= j < i ==> cuts_cleanly(#[trigger] text_lines(p@)[j], 40, 37),
                decreases lines@.len() - i,
            {
                let line = string_from_chars(lines[i].as_slice());
                assert(line@ == text_lines(p@)[i as int]);
                if !cut_is_clean(line.as_str(), 40, 37) {
                    assert(!cuts_cleanly(text_lines(p@)[i as int], 40, 37));
                    return false;
                }
                i += 1;
            }
            true
        },
    }
}

pub open spec fn opt_view(o: Option<String>) -> Option<Seq<char>> {
    match o {
        Some(s) => Some(s@),
        None => None,
    }
}

// ---------------------------------------------------------------------------
// Sections shared by both inspectors
// ---------------------------------------------------------------------------

pub open spec fn plain_header_line(h: (Seq<char>, Seq<char>)) -> Seq<char> {
    "  "@ + h.0 + ": "@ + h.1
}

pub open spec fn minimal_header_line(t: FastApiTheme, h: (Seq<char>, Seq<char>)) -> Seq<char> {
    "  "@ + fg(t.accent) + h.0 + ":"@ + ANSI_RESET@ + " "@ + h.1
}

pub open spec fn rich_header_line(t: FastApiTheme, w: nat, h: (Seq<char>, Seq<char>)) -> Seq<char> {
    let name = if byte_len(h.0) > w { byte_prefix(h.0, w - 3) + "..."@ } else { h.0 };
    edge(t) + "   "@ + fg(t.accent) + padded(name, w) + ANSI_RESET@ + ": "@ + h.1
}

pub open spec fn rich_body_line(l: Seq<char>) -> Seq<char> {
    "   "@ + ANSI_DIM@ + shortened(l, 40, 37) + ANSI_RESET@
}

pub open spec fn plain_size_info(size: Option<usize>, truncated: bool) -> Seq<char> {
    match size {
        Some(n) => if truncated {
            " ("@ + decimal(n as nat) + " bytes, truncated)"@
        } else {
            " ("@ + decimal(n as nat) + " bytes)"@
        },
        None => Seq::empty(),
    }
}

pub open spec fn rich_size_info(t: FastApiTheme, size: Option<usize>, truncated: bool) -> Seq<char> {
    match size {
        Some(n) => if truncated {
            fg(t.muted) + "("@ + decimal(n as nat) + " bytes, truncated)"@ + ANSI_RESET@
        } else {
            fg(t.muted) + "("@ + decimal(n as nat) + " bytes)"@ + ANSI_RESET@
        },
        None => Seq::empty(),
    }
}

pub open spec fn plain_headers_section(hs: Seq<(Seq<char>, Seq<char>)>) -> Seq<Seq<char>> {
    opt_lines(hs.len() > 0, seq![Seq::<char>::empty(), "Headers:"@] + hs.map_values(|h: (Seq<char>, Seq<char>)| plain_header_line(h)))
}

pub open spec fn plain_body_section(preview: Option<Seq<char>>, size: Option<usize>, truncated: bool) -> Seq<Seq<char>> {
    match preview {
        Some(p) => seq![Seq::<char>::empty(), "Body"@ + plain_size_info(size, truncated) + ":"@, "  "@ + p],
        None => Seq::empty(),
    }
}

pub open spec fn minimal_headers_section(t: FastApiTheme, hs: Seq<(Seq<char>, Seq<char>)>) -> Seq<Seq<char>> {
    opt_lines(
        hs.len() > 0,
        seq![fg(t.muted) + "Headers ("@ + decimal(hs.len()) + "):"@ + ANSI_RESET@] + hs.map_values(|h: (Seq<char>, Seq<char>)| minimal_header_line(t, h)),
    )
}

pub open spec fn rich_headers_section(t: FastApiTheme, hs: Seq<(Seq<char>, Seq<char>)>) -> Seq<Seq<char>> {
    opt_lines(
        hs.len() > 0,
        seq![separator(t), edge(t) + " "@ + fg(t.header) + "Headers"@ + ANSI_RESET@ + " "@ + fg(t.muted) + "("@ + decimal(hs.len()) + ")"@ + ANSI_RESET@]
            + hs.map_values(|h: (Seq<char>, Seq<char>)| rich_header_line(t, name_width(hs), h)),
    )
}

pub open spec fn rich_body_section(t: FastApiTheme, preview: Option<Seq<char>>, size: Option<usize>, truncated: bool) -> Seq<Seq<char>> {
    match preview {
        Some(p) => seq![separator(t), edge(t) + " "@ + fg(t.header) + "Body"@ + ANSI_RESET@ + " "@ + rich_size_info(t, size, truncated)]
            + text_lines(p).take(if text_lines(p).len() < 5 { text_lines(p).len() as int } else { 5 }).map_values(|l: Seq<char>| edge(t) + rich_body_line(l)),
        None => Seq::empty(),
    }
}

/// The body section of a rich response view: a separator, the heading with
/// the size, then one row per line of the preview, at most five, in order,
/// each line shortened to 37 bytes and `...` when longer than 40 bytes.
pub proof fn lemma_rich_body_rows(t: FastApiTheme, p: Seq<char>, size: Option<usize>, truncated: bool)
    ensures
        ({
            let rows = rich_body_section(t, Some(p), size, truncated);
            let n = if text_lines(p).len() < 5 { text_lines(p).len() as int } else { 5 };
            &&& rows.len() == 2 + n
            &&& rows[1] == edge(t) + " "@ + fg(t.header) + "Body"@ + ANSI_RESET@ + " "@ + rich_size_info(t, size, truncated)
            &&& forall|i: int| 0 <= i < n ==> #[trigger] rows[2 + i] == edge(t) + "   "@ + ANSI_DIM@ + shortened(
                text_lines(p)[i],
                40,
                37,
            ) + ANSI_RESET@
        }),
{
    let rows = rich_body_section(t, Some(p), size, truncated);
    let n = if text_lines(p).len() < 5 { text_lines(p).len() as int } else { 5 };
    let body = text_lines(p).take(n).map_values(|l: Seq<char>| edge(t) + rich_body_line(l));
    assert forall|i: int| 0 <= i < n implies #[trigger] rows[2 + i] == edge(t) + "   "@ + ANSI_DIM@ + shortened(
        text_lines(p)[i],
        40,
        37,
    ) + ANSI_RESET@ by {
        assert(rows[2 + i] == body[i]);
        assert(edge(t) + ("   "@ + ANSI_DIM@ + shortened(text_lines(p)[i], 40, 37) + ANSI_RESET@) =~= edge(t) + "   "@
            + ANSI_DIM@ + shortened(text_lines(p)[i], 40, 37) + ANSI_RESET@);
    }
}

pub open spec fn top_border(t: FastApiTheme) -> Seq<char> {
    fg(t.border) + "┌─────────────────────────────────────────────┐"@ + ANSI_RESET@
}

pub open spec fn bottom_border(t: FastApiTheme) -> Seq<char> {
    fg(t.border) + "└─────────────────────────────────────────────┘"@ + ANSI_RESET@
}

fn colored(s: &mut String, c: &Color, text: &str)
    ensures
        final(s)@ == old(s)@ + fg(*c) + text@ + ANSI_RESET@,
{
    let a = c.to_ansi_fg();
    push_str(s, a.as_str());
    push_str(s, text);
    push_str(s, ANSI_RESET);
    assert(s@ =~= old(s)@ + fg(*c) + text@ + ANSI_RESET@);
}

fn edge_into(s: &mut String, t: &FastApiTheme)
    ensures
        final(s)@ == old(s)@ + edge(*t),
{
    colored(s, &t.border, "│");
    assert(s@ =~= old(s)@ + edge(*t));
}

fn border_line(t: &FastApiTheme, text: &str) -> (s: String)
    ensures
        s@ == fg(t.border) + text@ + ANSI_RESET@,
{
    let mut s = String::new();
    colored(&mut s, &t.border, text);
    assert(s@ =~= fg(t.border) + text@ + ANSI_RESET@);
    s
}

fn plain_headers(hs: &Vec<(String, String)>) -> (v: Vec<String>)
    ensures
        strings_view(v@) == plain_headers_section(headers_view(hs@)),
{
    let mut v: Vec<String> = Vec::new();
    if hs.len() == 0 {
        assert(strings_view(v@) =~= plain_headers_section(headers_view(hs@)));
        return v;
    }
    push_line(&mut v, String::new());
    push_line(&mut v, String::from_str("Headers:"));
    let ghost head = strings_view(v@);
    let mut i: usize = 0;
    while i < hs.len()
        invariant
            i <= hs@.len(),
            strings_view(v@) == head + headers_view(hs@).take(i as int).map_values(|h: (Seq<char>, Seq<char>)| plain_header_line(h)),
        decreases hs@.len() - i,
    {
        let mut l = String::from_str("  ");
        push_str(&mut l, hs[i].0.as_str());
        push_str(&mut l, ": ");
        push_str(&mut l, hs[i].1.as_str());
        push_line(&mut v, l);
        i += 1;
        assert(strings_view(v@) =~= head + headers_view(hs@).take(i as int).map_values(|h: (Seq<char>, Seq<char>)| plain_header_line(h)));
    }
    assert(headers_view(hs@).take(hs@.len() as int) =~= headers_view(hs@));
    assert(strings_view(v@) =~= plain_headers_section(headers_view(hs@)));
    v
}

fn minimal_headers(t: &FastApiTheme, hs: &Vec<(String, String)>) -> (v: Vec<String>)
    ensures
        strings_view(v@) == minimal_headers_section(*t, headers_view(hs@)),
{
    let mut v: Vec<String> = Vec::new();
    if hs.len() == 0 {
        assert(strings_view(v@) =~= minimal_headers_section(*t, headers_view(hs@)));
        return v;
    }
    let mut l = String::new();
    let m = t.muted.to_ansi_fg();
    push_str(&mut l, m.as_str());
    push_str(&mut l, "Headers (");
    push_decimal(&mut l, hs.len() as u64);
    push_str(&mut l, "):");
    push_str(&mut l, ANSI_RESET);
    push_line(&mut v, l);
    let ghost head = strings_view(v@);
    let mut i: usize = 0;
    while i < hs.len()
        invariant
            i <= hs@.len(),
            strings_view(v@) == head + headers_view(hs@).take(i as int).map_values(|h: (Seq<char>, Seq<char>)| minimal_header_line(*t, h)),
        decreases hs@.len() - i,
    {
        let mut l = String::from_str("  ");
        let a = t.accent.to_ansi_fg();
        push_str(&mut l, a.as_str());
        push_str(&mut l, hs[i].0.as_str());
        push_str(&mut l, ":");
        push_str(&mut l, ANSI_RESET);
        push_str(&mut l, " ");
        push_str(&mut l, hs[i].1.as_str());
        push_line(&mut v, l);
        i += 1;
        assert(strings_view(v@) =~= head + headers_view(hs@).take(i as int).map_values(|h: (Seq<char>, Seq<char>)| minimal_header_line(*t, h)));
    }
    assert(headers_view(hs@).take(hs@.len() as int) =~= headers_view(hs@));
    assert(strings_view(v@) =~= minimal_headers_section(*t, headers_view(hs@)));
    v
}

#[verifier::rlimit(40)]
fn rich_headers(t: &FastApiTheme, hs: &Vec<(String, String)>) -> (v: Vec<String>)
    requires
        names_cut_cleanly(headers_view(hs@)),
    ensures
        strings_view(v@) == rich_headers_section(*t, headers_view(hs@)),
{
    let mut v: Vec<String> = Vec::new();
    let ghost hv = headers_view(hs@);
    if hs.len() == 0 {
        assert(strings_view(v@) =~= rich_headers_section(*t, hv));
        return v;
    }
    let mut sep = String::new();
    colored(&mut sep, &t.border, "├─────────────────────────────────────────────┤");
    assert(sep@ =~= separator(*t));
    push_line(&mut v, sep);
    let mut l = String::new();
    edge_into(&mut l, t);
    push_str(&mut l, " ");
    colored(&mut l, &t.header, "Headers");
    push_str(&mut l, " ");
    let m = t.muted.to_ansi_fg();
    push_str(&mut l, m.as_str());
    push_str(&mut l, "(");
    push_decimal(&mut l, hs.len() as u64);
    push_str(&mut l, ")");
    push_str(&mut l, ANSI_RESET);
    push_line(&mut v, l);
    let w = name_width_of(hs);
    let ghost head = strings_view(v@);
    let mut i: usize = 0;
    while i < hs.len()
        invariant
            i <= hs@.len(),
            hv == headers_view(hs@),
            w == name_width(hv),
            w <= 20,
            names_cut_cleanly(hv),
            strings_view(v@) == head + hv.take(i as int).map_values(|h: (Seq<char>, Seq<char>)| rich_header_line(*t, w as nat, h)),
        decreases hs@.len() - i,
    {
        let name = &hs[i].0;
        assert(hv[i as int].0 == name@);
        proof {
            lemma_longest_name_bound(hv, i as int);
        }
        let name_len = name.as_str().as_bytes().len();
        assert(name_len == byte_len(name@));
        let shown = if name_len > w {
            assert(w == 20);
            assert(cuts_cleanly(hv[i as int].0, 20, 17));
            shorten(name.as_str(), 20, 17)
        } else {
            name.clone()
        };
        assert(shown@ == (if byte_len(name@) > w { byte_prefix(name@, w - 3) + "..."@ } else { name@ }));
        let mut l = String::new();
        edge_into(&mut l, t);
        push_str(&mut l, "   ");
        let a = t.accent.to_ansi_fg();
        push_str(&mut l, a.as_str());
        let p = pad_to(&shown, w);
        push_str(&mut l, p.as_str());
        push_str(&mut l, ANSI_RESET);
        push_str(&mut l, ": ");
        push_str(&mut l, hs[i].1.as_str());
        assert(l@ =~= rich_header_line(*t, w as nat, hv[i as int]));
        push_line(&mut v, l);
        i += 1;
        assert(strings_view(v@) =~= head + hv.take(i as int).map_values(|h: (Seq<char>, Seq<char>)| rich_header_line(*t, w as nat, h)));
    }
    assert(hv.take(hs@.len() as int) =~= hv);
    assert(strings_view(v@) =~= rich_headers_section(*t, hv));
    v
}

fn size_info(t: &FastApiTheme, size: Option<usize>, truncated: bool, rich: bool) -> (s: String)
    ensures
        !rich ==> s@ == plain_size_info(size, truncated),
        rich ==> s@ == rich_size_info(*t, size, truncated),
{
    let mut s = String::new();
    match size {
        Some(n) => {
            if rich {
                let m = t.muted.to_ansi_fg();
                push_str(&mut s, m.as_str());
                push_str(&mut s, "(");
            } else {
                push_str(&mut s, " (");
            }
            push_decimal(&mut s, n as u64);
            if truncated {
                push_str(&mut s, " bytes, truncated)");
            } else {
                push_str(&mut s, " bytes)");
            }
            if rich {
                push_str(&mut s, ANSI_RESET);
            }
        },
        None => {},
    }
    assert(!rich ==> s@ =~= plain_size_info(size, truncated));
    assert(rich ==> s@ =~= rich_size_info(*t, size, truncated));
    s
}

fn plain_body(preview: &Option<String>, size: Option<usize>, truncated: bool) -> (v: Vec<String>)
    ensures
        strings_view(v@) == plain_body_section(opt_view(*preview), size, truncated),
{
    let mut v: Vec<String> = Vec::new();
    match preview {
        Some(p) => {
            push_line(&mut v, String::new());
            let mut l = String::from_str("Body");
            let si = size_info(&FastApiTheme::fastapi(), size, truncated, false);
            push_str(&mut l, si.as_str());
            push_str(&mut l, ":");
            push_line(&mut v, l);
            let mut l = String::from_str("  ");
            push_str(&mut l, p.as_str());
            push_line(&mut v, l);
        },
        None => {},
    }
    assert(strings_view(v@) =~= plain_body_section(opt_view(*preview), size, truncated));
    v
}

#[verifier::rlimit(40)]
fn rich_body(t: &FastApiTheme, preview: &Option<String>, size: Option<usize>, truncated: bool) -> (v: Vec<String>)
    requires
        preview_cuts_cleanly(opt_view(*preview)),
    ensures
        strings_view(v@) == rich_body_section(*t, opt_view(*preview), size, truncated),
{
    let mut v: Vec<String> = Vec::new();
    match preview {
        Some(p) => {
            let mut sep = String::new();
            colored(&mut sep, &t.border, "├─────────────────────────────────────────────┤");
            assert(sep@ =~= separator(*t));
            push_line(&mut v, sep);
            let mut l = String::new();
            edge_into(&mut l, t);
            push_str(&mut l, " ");
            colored(&mut l, &t.header, "Body");
            push_str(&mut l, " ");
            let si = size_info(t, size, truncated, true);
            push_str(&mut l, si.as_str());
            push_line(&mut v, l);
            let ghost head = strings_view(v@);
            let cs = chars_of(p.as_str());
            let ls = split_lines(cs.as_slice());
            let ghost tl = text_lines(p@);
            let count = if ls.len() < 5 { ls.len() } else { 5 };
            let mut i: usize = 0;
            while i < count
                invariant
                    i <= count <= ls@.len(),
                    count <= 5,
                    vecs_chars(ls@) == tl,
                    tl == text_lines(p@),
                    lines_cut_cleanly(p@),
                    strings_view(v@) == head + tl.take(i as int).map_values(|l: Seq<char>| edge(*t) + rich_body_line(l)),
                decreases count - i,
            {
                assert(tl[i as int] == ls@[i as int]@);
                assert(0 <= i < text_lines(p@).len() && i < 5);
                assert(cuts_cleanly(text_lines(p@)[i as int], 40, 37));
                let line = string_from_chars(ls[i].as_slice());
                let shown = shorten(line.as_str(), 40, 37);
                let mut l = String::new();
                edge_into(&mut l, t);
                push_str(&mut l, "   ");
                push_str(&mut l, ANSI_DIM);
                push_str(&mut l, shown.as_str());
                push_str(&mut l, ANSI_RESET);
                assert(l@ =~= edge(*t) + rich_body_line(tl[i as int]));
                push_line(&mut v, l);
                i += 1;
                assert(strings_view(v@) =~= head + tl.take(i as int).map_values(|l: Seq<char>| edge(*t) + rich_body_line(l)));
            }
        },
        None => {},
    }
    assert(strings_view(v@) =~= rich_body_section(*t, opt_view(*preview), size, truncated));
    v
}


// ---------------------------------------------------------------------------
// Requests
// ---------------------------------------------------------------------------

fn pairs_of(items: &[(&str, &str)]) -> (v: Vec<(String, String)>)
    ensures
        headers_view(v@) == items@.map_values(|p: (&str, &str)| (p.0@, p.1@)),
{
    let mut v: Vec<(String, String)> = Vec::new();
    let mut i: usize = 0;
    while i < items.len()
        invariant
            i <= items@.len(),
            headers_view(v@) == items@.take(i as int).map_values(|p: (&str, &str)| (p.0@, p.1@)),
        decreases items@.len() - i,
    {
        let (k, x) = items[i];
        assert(items@[i as int] == (k, x));
        let ghost before = v@;
        v.push((String::from_str(k), String::from_str(x)));
        assert(headers_view(v@) =~= headers_view(before).push((k@, x@)));
        assert(items@.take(i + 1).map_values(|p: (&str, &str)| (p.0@, p.1@))
            =~= items@.take(i as int).map_values(|p: (&str, &str)| (p.0@, p.1@)).push((k@, x@)));
        i += 1;
    }
    assert(items@.take(items@.len() as int) =~= items@);
    v
}

/// An HTTP request as the inspector shows it.
#[derive(Debug, Clone)]
pub struct RequestInfo {
    /// HTTP method.
    pub method: String,
    /// Request path.
    pub path: String,
    /// Query string, without the `?`.
    pub query: Option<String>,
    /// HTTP version, e.g. "HTTP/1.1".
    pub http_version: String,
    /// Request headers.
    pub headers: Vec<(String, String)>,
    /// Body preview, maybe cut short.
    pub body_preview: Option<String>,
    /// Whole body size in bytes.
    pub body_size: Option<usize>,
    /// The preview is shorter than the body.
    pub body_truncated: bool,
    /// Content-Type value.
    pub content_type: Option<String>,
    /// Time taken to parse the request.
    pub parse_duration: Option<Duration>,
    /// Client IP address.
    pub client_ip: Option<String>,
    /// Request ID.
    pub request_id: Option<String>,
}

impl RequestInfo {
    /// Whether every header name and shown preview line that the rich view
    /// shortens is cut on a character boundary, as `inspect` requires.
    pub fn cuts_cleanly(&self) -> (r: bool)
        ensures
            r == request_cuts_cleanly(*self),
    {
        names_are_clean(&self.headers) && preview_is_clean(&self.body_preview)
    }

    /// A request with only a method and a path (HTTP/1.1).
    pub fn new(method: &str, path: &str) -> (r: Self)
        ensures
            r.method@ == method@,
            r.path@ == path@,
            r.query is None,
            r.http_version@ == "HTTP/1.1"@,
            r.headers@.len() == 0,
            r.body_preview is None,
            r.body_size is None,
            !r.body_truncated,
            r.content_type is None,
            r.parse_duration is None,
            r.client_ip is None,
            r.request_id is None,
    {
        RequestInfo {
            method: String::from_str(method),
            path: String::from_str(path),
            query: None,
            http_version: String::from_str("HTTP/1.1"),
            headers: Vec::new(),
            body_preview: None,
            body_size: None,
            body_truncated: false,
            content_type: None,
            parse_duration: None,
            client_ip: None,
            request_id: None,
        }
    }

    pub fn query(self, query: &str) -> (r: Self)
        ensures
            r.query matches Some(q) && q@ == query@,
            r == (RequestInfo { query: r.query, ..self }),
    {
        RequestInfo { query: Some(String::from_str(query)), ..self }
    }

    pub fn http_version(self, version: &str) -> (r: Self)
        ensures
            r.http_version@ == version@,
            r == (RequestInfo { http_version: r.http_version, ..self }),
    {
        RequestInfo { http_version: String::from_str(version), ..self }
    }

    /// Adds a header.
    pub fn header(self, name: &str, value: &str) -> (r: Self)
        ensures
            headers_view(r.headers@) == headers_view(self.headers@).push((name@, value@)),
            r == (RequestInfo { headers: r.headers, ..self }),
    {
        let mut info = self;
        let ghost before = info.headers@;
        info.headers.push((String::from_str(name), String::from_str(value)));
        assert(headers_view(info.headers@) =~= headers_view(before).push((name@, value@)));
        info
    }

    /// Replaces the headers.
    pub fn headers(self, headers: &[(&str, &str)]) -> (r: Self)
        ensures
            headers_view(r.headers@) == headers@.map_values(|p: (&str, &str)| (p.0@, p.1@)),
            r == (RequestInfo { headers: r.headers, ..self }),
    {
        RequestInfo { headers: pairs_of(headers), ..self }
    }

    /// Sets the body preview and the whole size; the preview is marked
    /// truncated when it has fewer bytes than the body.
    pub fn body_preview(self, preview: &str, total_size: usize) -> (r: Self)
        ensures
            r.body_preview matches Some(p) && p@ == preview@,
            r.body_size == Some(total_size),
            r.body_truncated == (byte_len(preview@) < total_size),
            r == (RequestInfo { body_preview: r.body_preview, body_size: r.body_size, body_truncated: r.body_truncated, ..self }),
    {
        let n = preview.as_bytes().len();
        RequestInfo {
            body_truncated: n < total_size,
            body_preview: Some(String::from_str(preview)),
            body_size: Some(total_size),
            ..self
        }
    }

    pub fn content_type(self, content_type: &str) -> (r: Self)
        ensures
            r.content_type matches Some(c) && c@ == content_type@,
            r == (RequestInfo { content_type: r.content_type, ..self }),
    {
        RequestInfo { content_type: Some(String::from_str(content_type)), ..self }
    }

    pub fn parse_duration(self, duration: Duration) -> (r: Self)
        ensures
            r == (RequestInfo { parse_duration: Some(duration), ..self }),
    {
        RequestInfo { parse_duration: Some(duration), ..self }
    }

    pub fn client_ip(self, ip: &str) -> (r: Self)
        ensures
            r.client_ip matches Some(c) && c@ == ip@,
            r == (RequestInfo { client_ip: r.client_ip, ..self }),
    {
        RequestInfo { client_ip: Some(String::from_str(ip)), ..self }
    }

    pub fn request_id(self, id: &str) -> (r: Self)
        ensures
            r.request_id matches Some(c) && c@ == id@,
            r == (RequestInfo { request_id: r.request_id, ..self }),
    {
        RequestInfo { request_id: Some(String::from_str(id)), ..self }
    }
}

/// Shows requests.
#[derive(Debug, Clone)]
pub struct RequestInspector {
    mode: OutputMode,
    theme: FastApiTheme,
    /// Longest body preview.
    pub max_body_preview: usize,
    /// Show all headers.
    pub show_all_headers: bool,
    /// Show timing.
    pub show_timing: bool,
}

/// The settings of an inspector.
pub struct InspectorView {
    pub mode: OutputMode,
    pub theme: FastApiTheme,
    pub max_body_preview: usize,
    pub show_all_headers: bool,
    pub show_timing: bool,
}

impl View for RequestInspector {
    type V = InspectorView;

    closed spec fn view(&self) -> InspectorView {
        InspectorView {
            mode: self.mode,
            theme: self.theme,
            max_body_preview: self.max_body_preview,
            show_all_headers: self.show_all_headers,
            show_timing: self.show_timing,
        }
    }
}

pub open spec fn full_path(info: RequestInfo) -> Seq<char> {
    match info.query {
        Some(q) => info.path@ + "?"@ + q@,
        None => info.path@,
    }
}

pub open spec fn opt_text(o: Option<String>, prefix: Seq<char>) -> Seq<Seq<char>> {
    match o {
        Some(x) => seq![prefix + x@],
        None => Seq::empty(),
    }
}

pub open spec fn timing_line(show: bool, d: Option<Duration>, prefix: Seq<char>, suffix: Seq<char>) -> Seq<Seq<char>> {
    match d {
        Some(t) => if show { seq![prefix + duration_text(t@) + suffix] } else { Seq::empty() },
        None => Seq::empty(),
    }
}

pub open spec fn request_plain_lines(d: InspectorView, info: RequestInfo) -> Seq<Seq<char>> {
    seq!["=== HTTP Request ==="@, info.method@ + " "@ + full_path(info) + " "@ + info.http_version@]
        + opt_text(info.client_ip, "Client: "@) + opt_text(info.request_id, "Request-ID: "@)
        + timing_line(d.show_timing, info.parse_duration, "Parse time: "@, Seq::empty())
        + plain_headers_section(headers_view(info.headers@))
        + plain_body_section(opt_view(info.body_preview), info.body_size, info.body_truncated)
        + seq!["===================="@]
}

pub open spec fn request_minimal_lines(d: InspectorView, info: RequestInfo) -> Seq<Seq<char>> {
    let t = d.theme;
    seq![
        fg(t.muted) + "=== HTTP Request ==="@ + ANSI_RESET@,
        fg(method_color(t, unicode_uppercase(info.method@))) + info.method@ + ANSI_RESET@ + " "@ + full_path(info) + " "@
            + fg(t.muted) + info.http_version@ + ANSI_RESET@,
    ] + (match info.request_id {
        Some(id) => seq![fg(t.muted) + "Request-ID:"@ + ANSI_RESET@ + " "@ + fg(t.accent) + id@ + ANSI_RESET@],
        None => Seq::empty(),
    }) + timing_line(d.show_timing, info.parse_duration, fg(t.muted) + "Parse time:"@ + ANSI_RESET@ + " "@, Seq::empty())
        + minimal_headers_section(t, headers_view(info.headers@)) + seq![fg(t.muted) + "=================="@ + ANSI_RESET@]
}

/// The metadata of a request shown in one row.
pub open spec fn request_meta(d: InspectorView, info: RequestInfo) -> Seq<Seq<char>> {
    opt_text(info.client_ip, "Client: "@) + opt_text(info.request_id, "ID: "@)
        + timing_line(d.show_timing, info.parse_duration, "Parsed: "@, Seq::empty())
}

pub open spec fn rich_full_path(t: FastApiTheme, info: RequestInfo) -> Seq<char> {
    match info.query {
        Some(q) => info.path@ + fg(t.accent) + "?"@ + q@ + ANSI_RESET@,
        None => info.path@,
    }
}

pub open spec fn request_rich_lines(d: InspectorView, info: RequestInfo) -> Seq<Seq<char>> {
    let t = d.theme;
    seq![
        top_border(t),
        edge(t) + " "@ + fg(t.header) + ANSI_BOLD@ + "HTTP Request"@ + ANSI_RESET@ + "                                 "@ + fg(t.border) + "│"@ + ANSI_RESET@,
        separator(t),
        edge(t) + " "@ + ansi_rgb("48"@, method_color(t, unicode_uppercase(info.method@))) + ANSI_BOLD@ + " "@ + info.method@ + " "@
            + ANSI_RESET@ + " "@ + rich_full_path(t, info),
    ] + opt_lines(
        request_meta(d, info).len() > 0,
        seq![edge(t) + " "@ + fg(t.muted) + join_with(request_meta(d, info), " │ "@) + ANSI_RESET@],
    ) + rich_headers_section(t, headers_view(info.headers@))
        + rich_body_section(t, opt_view(info.body_preview), info.body_size, info.body_truncated) + seq![bottom_border(t)]
}

pub open spec fn request_lines(d: InspectorView, info: RequestInfo) -> Seq<Seq<char>> {
    match d.mode {
        OutputMode::Plain => request_plain_lines(d, info),
        OutputMode::Minimal => request_minimal_lines(d, info),
        OutputMode::Rich => request_rich_lines(d, info),
    }
}

/// What the rich layout needs of a request: names and preview lines that
/// are too long are cut at character boundaries.
pub open spec fn request_cuts_cleanly(info: RequestInfo) -> bool {
    names_cut_cleanly(headers_view(info.headers@)) && preview_cuts_cleanly(opt_view(info.body_preview))
}

fn timing_into(lines: &mut Vec<String>, show: bool, d: Option<Duration>, prefix: &str)
    ensures
        strings_view(final(lines)@) == strings_view(old(lines)@) + timing_line(show, d, prefix@, Seq::empty()),
{
    if show {
        if let Some(t) = d {
            let mut l = String::from_str(prefix);
            let f = format_duration(t);
            push_str(&mut l, f.as_str());
            push_line(lines, l);
            assert(strings_view(lines@) =~= strings_view(old(lines)@) + timing_line(show, d, prefix@, Seq::empty()));
            return;
        }
    }
    assert(strings_view(lines@) =~= strings_view(old(lines)@) + timing_line(show, d, prefix@, Seq::empty()));
}

fn opt_into(lines: &mut Vec<String>, o: &Option<String>, prefix: &str)
    ensures
        strings_view(final(lines)@) == strings_view(old(lines)@) + opt_text(*o, prefix@),
{
    if let Some(x) = o {
        let mut l = String::from_str(prefix);
        push_str(&mut l, x.as_str());
        push_line(lines, l);
    }
    assert(strings_view(lines@) =~= strings_view(old(lines)@) + opt_text(*o, prefix@));
}

impl RequestInspector {
    /// An inspector in `mode` with the default theme, a 512-byte preview,
    /// all headers and timing shown.
    pub fn new(mode: OutputMode) -> (i: Self)
        ensures
            i@ == (InspectorView {
                mode,
                theme: fastapi_palette(),
                max_body_preview: DEFAULT_BODY_PREVIEW_LEN,
                show_all_headers: true,
                show_timing: true,
            }),
    {
        RequestInspector {
            mode,
            theme: FastApiTheme::fastapi(),
            max_body_preview: DEFAULT_BODY_PREVIEW_LEN,
            show_all_headers: true,
            show_timing: true,
        }
    }

    /// Sets the theme.
    pub fn theme(self, theme: FastApiTheme) -> (i: Self)
        ensures
            i@ == (InspectorView { theme, ..self@ }),
    {
        RequestInspector { theme, ..self }
    }

    /// Shows a request as lines joined by newlines.
    pub fn inspect(&self, info: &RequestInfo) -> (s: String)
        requires
            self@.mode == OutputMode::Rich ==> request_cuts_cleanly(*info),
        ensures
            s@ == join_with(request_lines(self@, *info), "\n"@),
    {
        match self.mode {
            OutputMode::Plain => self.inspect_plain(info),
            OutputMode::Minimal => self.inspect_minimal(info),
            OutputMode::Rich => self.inspect_rich(info),
        }
    }

    fn path_text(info: &RequestInfo) -> (s: String)
        ensures
            s@ == full_path(*info),
    {
        let mut s = info.path.clone();
        if let Some(q) = &info.query {
            push_str(&mut s, "?");
            push_str(&mut s, q.as_str());
        }
        assert(s@ =~= full_path(*info));
        s
    }

    fn inspect_plain(&self, info: &RequestInfo) -> (s: String)
        ensures
            s@ == join_with(request_plain_lines(self@, *info), "\n"@),
    {
        let mut lines: Vec<String> = Vec::new();
        assert(strings_view(lines@) =~= Seq::<Seq<char>>::empty());
        push_line(&mut lines, String::from_str("=== HTTP Request ==="));
        let mut l = info.method.clone();
        push_str(&mut l, " ");
        let p = Self::path_text(info);
        push_str(&mut l, p.as_str());
        push_str(&mut l, " ");
        push_str(&mut l, info.http_version.as_str());
        push_line(&mut lines, l);
        opt_into(&mut lines, &info.client_ip, "Client: ");
        opt_into(&mut lines, &info.request_id, "Request-ID: ");
        timing_into(&mut lines, self.show_timing, info.parse_duration, "Parse time: ");
        append_lines(&mut lines, plain_headers(&info.headers));
        append_lines(&mut lines, plain_body(&info.body_preview, info.body_size, info.body_truncated));
        push_line(&mut lines, String::from_str("===================="));
        assert(strings_view(lines@) =~= request_plain_lines(self@, *info));
        join_strings(&lines, "\n")
    }

    fn inspect_minimal(&self, info: &RequestInfo) -> (s: String)
        ensures
            s@ == join_with(request_minimal_lines(self@, *info), "\n"@),
    {
        let t = &self.theme;
        let mut lines: Vec<String> = Vec::new();
        assert(strings_view(lines@) =~= Seq::<Seq<char>>::empty());
        let mut l = String::new();
        colored(&mut l, &t.muted, "=== HTTP Request ===");
        push_line(&mut lines, l);
        let mut l = String::new();
        let mc = t.http_method_color(info.method.as_str());
        colored(&mut l, &mc, info.method.as_str());
        push_str(&mut l, " ");
        let p = Self::path_text(info);
        push_str(&mut l, p.as_str());
        push_str(&mut l, " ");
        colored(&mut l, &t.muted, info.http_version.as_str());
        push_line(&mut lines, l);
        if let Some(id) = &info.request_id {
            let mut l = String::new();
            colored(&mut l, &t.muted, "Request-ID:");
            push_str(&mut l, " ");
            colored(&mut l, &t.accent, id.as_str());
            push_line(&mut lines, l);
        }
        let ghost head = strings_view(lines@);
        let mut prefix = String::new();
        colored(&mut prefix, &t.muted, "Parse time:");
        push_str(&mut prefix, " ");
        timing_into(&mut lines, self.show_timing, info.parse_duration, prefix.as_str());
        append_lines(&mut lines, minimal_headers(t, &info.headers));
        let mut l = String::new();
        colored(&mut l, &t.muted, "==================");
        push_line(&mut lines, l);
        assert(strings_view(lines@) =~= request_minimal_lines(self@, *info));
        join_strings(&lines, "\n")
    }

    #[verifier::rlimit(60)]
    fn inspect_rich(&self, info: &RequestInfo) -> (s: String)
        requires
            request_cuts_cleanly(*info),
        ensures
            s@ == join_with(request_rich_lines(self@, *info), "\n"@),
    {
        let t = &self.theme;
        let mut lines: Vec<String> = Vec::new();
        assert(strings_view(lines@) =~= Seq::<Seq<char>>::empty());
        push_line(&mut lines, border_line(t, "┌─────────────────────────────────────────────┐"));
        let mut l = String::new();
        edge_into(&mut l, t);
        push_str(&mut l, " ");
        let h = t.header.to_ansi_fg();
        push_str(&mut l, h.as_str());
        push_str(&mut l, ANSI_BOLD);
        push_str(&mut l, "HTTP Request");
        push_str(&mut l, ANSI_RESET);
        push_str(&mut l, "                                 ");
        colored(&mut l, &t.border, "│");
        push_line(&mut lines, l);
        push_line(&mut lines, border_line(t, "├─────────────────────────────────────────────┤"));
        let mut l = String::new();
        edge_into(&mut l, t);
        push_str(&mut l, " ");
        let mc = t.http_method_color(info.method.as_str());
        let bg = mc.to_ansi_bg();
        push_str(&mut l, bg.as_str());
        push_str(&mut l, ANSI_BOLD);
        push_str(&mut l, " ");
        push_str(&mut l, info.method.as_str());
        push_str(&mut l, " ");
        push_str(&mut l, ANSI_RESET);
        push_str(&mut l, " ");
        push_str(&mut l, info.path.as_str());
        if let Some(q) = &info.query {
            let a = t.accent.to_ansi_fg();
            push_str(&mut l, a.as_str());
            push_str(&mut l, "?");
            push_str(&mut l, q.as_str());
            push_str(&mut l, ANSI_RESET);
        }
        push_line(&mut lines, l);
        let ghost head = strings_view(lines@);
        assert(head[0] == top_border(*t));
        assert(head[1] == edge(*t) + " "@ + fg(t.header) + ANSI_BOLD@ + "HTTP Request"@ + ANSI_RESET@ + "                                 "@ + fg(t.border) + "│"@ + ANSI_RESET@);
        assert(head[2] == separator(*t));
        assert(head[3] == edge(*t) + " "@ + ansi_rgb("48"@, method_color(*t, unicode_uppercase(info.method@))) + ANSI_BOLD@ + " "@ + info.method@ + " "@
                + ANSI_RESET@ + " "@ + rich_full_path(*t, *info));
        assert(head =~= seq![
            top_border(*t),
            edge(*t) + " "@ + fg(t.header) + ANSI_BOLD@ + "HTTP Request"@ + ANSI_RESET@ + "                                 "@ + fg(t.border) + "│"@ + ANSI_RESET@,
            separator(*t),
            edge(*t) + " "@ + ansi_rgb("48"@, method_color(*t, unicode_uppercase(info.method@))) + ANSI_BOLD@ + " "@ + info.method@ + " "@
                + ANSI_RESET@ + " "@ + rich_full_path(*t, *info),
        ]);
        let mut meta: Vec<String> = Vec::new();
        assert(strings_view(meta@) =~= Seq::<Seq<char>>::empty());
        opt_into(&mut meta, &info.client_ip, "Client: ");
        opt_into(&mut meta, &info.request_id, "ID: ");
        timing_into(&mut meta, self.show_timing, info.parse_duration, "Parsed: ");
        assert(strings_view(meta@) =~= request_meta(self@, *info));
        if meta.len() > 0 {
            let mut l = String::new();
            edge_into(&mut l, t);
            push_str(&mut l, " ");
            let j = join_strings(&meta, " │ ");
            colored(&mut l, &t.muted, j.as_str());
            push_line(&mut lines, l);
        }
        let ghost with_meta = strings_view(lines@);
        assert(with_meta =~= head + opt_lines(
            request_meta(self@, *info).len() > 0,
            seq![edge(*t) + " "@ + fg(t.muted) + join_with(request_meta(self@, *info), " │ "@) + ANSI_RESET@],
        ));
        append_lines(&mut lines, rich_headers(t, &info.headers));
        append_lines(&mut lines, rich_body(t, &info.body_preview, info.body_size, info.body_truncated));
        push_line(&mut lines, border_line(t, "└─────────────────────────────────────────────┘"));
        assert(strings_view(lines@) =~= with_meta + rich_headers_section(*t, headers_view(info.headers@))
            + rich_body_section(*t, opt_view(info.body_preview), info.body_size, info.body_truncated) + seq![bottom_border(*t)]);
        assert(strings_view(lines@) =~= request_rich_lines(self@, *info));
        join_strings(&lines, "\n")
    }
}


// ---------------------------------------------------------------------------
// Responses
// ---------------------------------------------------------------------------

/// An HTTP response as the inspector shows it.
#[derive(Debug, Clone)]
pub struct ResponseInfo {
    /// Status code.
    pub status: u16,
    /// Reason phrase.
    pub reason: Option<String>,
    /// Response headers.
    pub headers: Vec<(String, String)>,
    /// Body preview, maybe cut short.
    pub body_preview: Option<String>,
    /// Whole body size in bytes.
    pub body_size: Option<usize>,
    /// The preview is shorter than the body.
    pub body_truncated: bool,
    /// Content-Type value.
    pub content_type: Option<String>,
    /// Total response time.
    pub response_time: Option<Duration>,
}

/// The standard reason phrase of a status code.
pub open spec fn reason_phrase(status: u16) -> Seq<char> {
    if status == 100 { "Continue"@ }
    else if status == 101 { "Switching Protocols"@ }
    else if status == 200 { "OK"@ }
    else if status == 201 { "Created"@ }
    else if status == 202 { "Accepted"@ }
    else if status == 204 { "No Content"@ }
    else if status == 301 { "Moved Permanently"@ }
    else if status == 302 { "Found"@ }
    else if status == 304 { "Not Modified"@ }
    else if status == 307 { "Temporary Redirect"@ }
    else if status == 308 { "Permanent Redirect"@ }
    else if status == 400 { "Bad Request"@ }
    else if status == 401 { "Unauthorized"@ }
    else if status == 403 { "Forbidden"@ }
    else if status == 404 { "Not Found"@ }
    else if status == 405 { "Method Not Allowed"@ }
    else if status == 409 { "Conflict"@ }
    else if status == 413 { "Payload Too Large"@ }
    else if status == 415 { "Unsupported Media Type"@ }
    else if status == 422 { "Unprocessable Entity"@ }
    else if status == 429 { "Too Many Requests"@ }
    else if status == 500 { "Internal Server Error"@ }
    else if status == 502 { "Bad Gateway"@ }
    else if status == 503 { "Service Unavailable"@ }
    else if status == 504 { "Gateway Timeout"@ }
    else { "Unknown"@ }
}

impl ResponseInfo {
    /// Whether every header name and shown preview line that the rich view
    /// shortens is cut on a character boundary, as `inspect` requires.
    pub fn cuts_cleanly(&self) -> (r: bool)
        ensures
            r == response_cuts_cleanly(*self),
    {
        names_are_clean(&self.headers) && preview_is_clean(&self.body_preview)
    }

    pub fn new(status: u16) -> (r: Self)
        ensures
            r.status == status,
            r.reason is None,
            r.headers@.len() == 0,
            r.body_preview is None,
            r.body_size is None,
            !r.body_truncated,
            r.content_type is None,
            r.response_time is None,
    {
        ResponseInfo {
            status,
            reason: None,
            headers: Vec::new(),
            body_preview: None,
            body_size: None,
            body_truncated: false,
            content_type: None,
            response_time: None,
        }
    }

    pub fn reason(self, reason: &str) -> (r: Self)
        ensures
            r.reason matches Some(x) && x@ == reason@,
            r == (ResponseInfo { reason: r.reason, ..self }),
    {
        ResponseInfo { reason: Some(String::from_str(reason)), ..self }
    }

    /// Adds a header.
    pub fn header(self, name: &str, value: &str) -> (r: Self)
        ensures
            headers_view(r.headers@) == headers_view(self.headers@).push((name@, value@)),
            r == (ResponseInfo { headers: r.headers, ..self }),
    {
        let mut info = self;
        let ghost before = info.headers@;
        info.headers.push((String::from_str(name), String::from_str(value)));
        assert(headers_view(info.headers@) =~= headers_view(before).push((name@, value@)));
        info
    }

    /// Replaces the headers.
    pub fn headers(self, headers: &[(&str, &str)]) -> (r: Self)
        ensures
            headers_view(r.headers@) == headers@.map_values(|p: (&str, &str)| (p.0@, p.1@)),
            r == (ResponseInfo { headers: r.headers, ..self }),
    {
        ResponseInfo { headers: pairs_of(headers), ..self }
    }

    /// Sets the body preview and the whole size; the preview is marked
    /// truncated when it has fewer bytes than the body.
    pub fn body_preview(self, preview: &str, total_size: usize) -> (r: Self)
        ensures
            r.body_preview matches Some(p) && p@ == preview@,
            r.body_size == Some(total_size),
            r.body_truncated == (byte_len(preview@) < total_size),
            r == (ResponseInfo { body_preview: r.body_preview, body_size: r.body_size, body_truncated: r.body_truncated, ..self }),
    {
        let n = preview.as_bytes().len();
        ResponseInfo {
            body_truncated: n < total_size,
            body_preview: Some(String::from_str(preview)),
            body_size: Some(total_size),
            ..self
        }
    }

    pub fn content_type(self, content_type: &str) -> (r: Self)
        ensures
            r.content_type matches Some(c) && c@ == content_type@,
            r == (ResponseInfo { content_type: r.content_type, ..self }),
    {
        ResponseInfo { content_type: Some(String::from_str(content_type)), ..self }
    }

    pub fn response_time(self, duration: Duration) -> (r: Self)
        ensures
            r == (ResponseInfo { response_time: Some(duration), ..self }),
    {
        ResponseInfo { response_time: Some(duration), ..self }
    }

    /// The standard reason phrase of the status code ("Unknown" when there
    /// is none).
    pub fn default_reason(&self) -> (s: &'static str)
        ensures
            s@ == reason_phrase(self.status),
    {
        match self.status {
            100 => "Continue",
            101 => "Switching Protocols",
            200 => "OK",
            201 => "Created",
            202 => "Accepted",
            204 => "No Content",
            301 => "Moved Permanently",
            302 => "Found",
            304 => "Not Modified",
            307 => "Temporary Redirect",
            308 => "Permanent Redirect",
            400 => "Bad Request",
            401 => "Unauthorized",
            403 => "Forbidden",
            404 => "Not Found",
            405 => "Method Not Allowed",
            409 => "Conflict",
            413 => "Payload Too Large",
            415 => "Unsupported Media Type",
            422 => "Unprocessable Entity",
            429 => "Too Many Requests",
            500 => "Internal Server Error",
            502 => "Bad Gateway",
            503 => "Service Unavailable",
            504 => "Gateway Timeout",
            _ => "Unknown",
        }
    }
}

/// Shows responses.
#[derive(Debug, Clone)]
pub struct ResponseInspector {
    mode: OutputMode,
    theme: FastApiTheme,
    /// Longest body preview.
    pub max_body_preview: usize,
    /// Show all headers.
    pub show_all_headers: bool,
    /// Show timing.
    pub show_timing: bool,
}

impl View for ResponseInspector {
    type V = InspectorView;

    closed spec fn view(&self) -> InspectorView {
        InspectorView {
            mode: self.mode,
            theme: self.theme,
            max_body_preview: self.max_body_preview,
            show_all_headers: self.show_all_headers,
            show_timing: self.show_timing,
        }
    }
}

/// The icon of a status class.
pub open spec fn status_icon(status: u16) -> Seq<char> {
    if 100 <= status <= 199 { "ℹ"@ }
    else if 200 <= status <= 299 { "✓"@ }
    else if 300 <= status <= 399 { "→"@ }
    else if 400 <= status <= 499 { "⚠"@ }
    else if 500 <= status <= 599 { "✗"@ }
    else { "?"@ }
}

/// The reason shown for a response: its own, or the standard phrase.
pub open spec fn shown_reason(info: ResponseInfo) -> Seq<char> {
    match info.reason {
        Some(r) => r@,
        None => reason_phrase(info.status),
    }
}

pub open spec fn response_plain_lines(d: InspectorView, info: ResponseInfo) -> Seq<Seq<char>> {
    seq!["=== HTTP Response ==="@, "HTTP/1.1 "@ + decimal(info.status as nat) + " "@ + shown_reason(info)]
        + timing_line(d.show_timing, info.response_time, "Response time: "@, Seq::empty())
        + plain_headers_section(headers_view(info.headers@))
        + plain_body_section(opt_view(info.body_preview), info.body_size, info.body_truncated)
        + seq!["====================="@]
}

pub open spec fn response_minimal_lines(d: InspectorView, info: ResponseInfo) -> Seq<Seq<char>> {
    let t = d.theme;
    seq![
        fg(t.muted) + "=== HTTP Response ==="@ + ANSI_RESET@,
        fg(status_color(t, info.status)) + status_icon(info.status) + " "@ + decimal(info.status as nat) + " "@ + shown_reason(info) + ANSI_RESET@,
    ] + timing_line(d.show_timing, info.response_time, fg(t.muted) + "Response time:"@ + ANSI_RESET@ + " "@, Seq::empty())
        + minimal_headers_section(t, headers_view(info.headers@)) + seq![fg(t.muted) + "=================="@ + ANSI_RESET@]
}

pub open spec fn response_rich_lines(d: InspectorView, info: ResponseInfo) -> Seq<Seq<char>> {
    let t = d.theme;
    seq![
        top_border(t),
        edge(t) + " "@ + fg(t.header) + ANSI_BOLD@ + "HTTP Response"@ + ANSI_RESET@ + "                                "@ + fg(t.border) + "│"@ + ANSI_RESET@,
        separator(t),
        edge(t) + " "@ + ansi_rgb("48"@, status_color(t, info.status)) + ANSI_BOLD@ + " "@ + status_icon(info.status) + " "@
            + decimal(info.status as nat) + " "@ + ANSI_RESET@ + " "@ + shown_reason(info),
    ] + timing_line(d.show_timing, info.response_time, edge(t) + " "@ + fg(t.muted) + "Response time: "@, ANSI_RESET@)
        + rich_headers_section(t, headers_view(info.headers@))
        + rich_body_section(t, opt_view(info.body_preview), info.body_size, info.body_truncated) + seq![bottom_border(t)]
}

pub open spec fn response_lines(d: InspectorView, info: ResponseInfo) -> Seq<Seq<char>> {
    match d.mode {
        OutputMode::Plain => response_plain_lines(d, info),
        OutputMode::Minimal => response_minimal_lines(d, info),
        OutputMode::Rich => response_rich_lines(d, info),
    }
}

/// What the rich layout needs of a response: names and preview lines that
/// are too long are cut at character boundaries.
pub open spec fn response_cuts_cleanly(info: ResponseInfo) -> bool {
    names_cut_cleanly(headers_view(info.headers@)) && preview_cuts_cleanly(opt_view(info.body_preview))
}

fn timing_suffix_into(lines: &mut Vec<String>, show: bool, d: Option<Duration>, prefix: &str, suffix: &str)
    ensures
        strings_view(final(lines)@) == strings_view(old(lines)@) + timing_line(show, d, prefix@, suffix@),
{
    if show {
        if let Some(t) = d {
            let mut l = String::from_str(prefix);
            let f = format_duration(t);
            push_str(&mut l, f.as_str());
            push_str(&mut l, suffix);
            push_line(lines, l);
            assert(strings_view(lines@) =~= strings_view(old(lines)@) + timing_line(show, d, prefix@, suffix@));
            return;
        }
    }
    assert(strings_view(lines@) =~= strings_view(old(lines)@) + timing_line(show, d, prefix@, suffix@));
}

impl ResponseInspector {
    /// An inspector in `mode` with the default theme, a 512-byte preview,
    /// all headers and timing shown.
    pub fn new(mode: OutputMode) -> (i: Self)
        ensures
            i@ == (InspectorView {
                mode,
                theme: fastapi_palette(),
                max_body_preview: DEFAULT_BODY_PREVIEW_LEN,
                show_all_headers: true,
                show_timing: true,
            }),
    {
        ResponseInspector {
            mode,
            theme: FastApiTheme::fastapi(),
            max_body_preview: DEFAULT_BODY_PREVIEW_LEN,
            show_all_headers: true,
            show_timing: true,
        }
    }

    /// Sets the theme.
    pub fn theme(self, theme: FastApiTheme) -> (i: Self)
        ensures
            i@ == (InspectorView { theme, ..self@ }),
    {
        ResponseInspector { theme, ..self }
    }

    /// Shows a response as lines joined by newlines.
    pub fn inspect(&self, info: &ResponseInfo) -> (s: String)
        requires
            self@.mode == OutputMode::Rich ==> response_cuts_cleanly(*info),
        ensures
            s@ == join_with(response_lines(self@, *info), "\n"@),
    {
        match self.mode {
            OutputMode::Plain => self.inspect_plain(info),
            OutputMode::Minimal => self.inspect_minimal(info),
            OutputMode::Rich => self.inspect_rich(info),
        }
    }

    fn reason_text(info: &ResponseInfo) -> (s: String)
        ensures
            s@ == shown_reason(*info),
    {
        match &info.reason {
            Some(r) => r.clone(),
            None => String::from_str(info.default_reason()),
        }
    }

    fn status_icon(status: u16) -> (s: &'static str)
        ensures
            s@ == status_icon(status),
    {
        if 100 <= status && status <= 199 { "ℹ" }
        else if 200 <= status && status <= 299 { "✓" }
        else if 300 <= status && status <= 399 { "→" }
        else if 400 <= status && status <= 499 { "⚠" }
        else if 500 <= status && status <= 599 { "✗" }
        else { "?" }
    }

    fn inspect_plain(&self, info: &ResponseInfo) -> (s: String)
        ensures
            s@ == join_with(response_plain_lines(self@, *info), "\n"@),
    {
        let mut lines: Vec<String> = Vec::new();
        assert(strings_view(lines@) =~= Seq::<Seq<char>>::empty());
        push_line(&mut lines, String::from_str("=== HTTP Response ==="));
        let mut l = String::from_str("HTTP/1.1 ");
        push_decimal(&mut l, info.status as u64);
        push_str(&mut l, " ");
        let r = Self::reason_text(info);
        push_str(&mut l, r.as_str());
        push_line(&mut lines, l);
        timing_into(&mut lines, self.show_timing, info.response_time, "Response time: ");
        append_lines(&mut lines, plain_headers(&info.headers));
        append_lines(&mut lines, plain_body(&info.body_preview, info.body_size, info.body_truncated));
        push_line(&mut lines, String::from_str("====================="));
        assert(strings_view(lines@) =~= response_plain_lines(self@, *info));
        join_strings(&lines, "\n")
    }

    fn inspect_minimal(&self, info: &ResponseInfo) -> (s: String)
        ensures
            s@ == join_with(response_minimal_lines(self@, *info), "\n"@),
    {
        let t = &self.theme;
        let mut lines: Vec<String> = Vec::new();
        assert(strings_view(lines@) =~= Seq::<Seq<char>>::empty());
        let mut l = String::new();
        colored(&mut l, &t.muted, "=== HTTP Response ===");
        push_line(&mut lines, l);
        let mut l = String::new();
        let sc = t.status_code_color(info.status);
        let a = sc.to_ansi_fg();
        push_str(&mut l, a.as_str());
        push_str(&mut l, Self::status_icon(info.status));
        push_str(&mut l, " ");
        push_decimal(&mut l, info.status as u64);
        push_str(&mut l, " ");
        let r = Self::reason_text(info);
        push_str(&mut l, r.as_str());
        push_str(&mut l, ANSI_RESET);
        push_line(&mut lines, l);
        let mut prefix = String::new();
        colored(&mut prefix, &t.muted, "Response time:");
        push_str(&mut prefix, " ");
        timing_into(&mut lines, self.show_timing, info.response_time, prefix.as_str());
        append_lines(&mut lines, minimal_headers(t, &info.headers));
        let mut l = String::new();
        colored(&mut l, &t.muted, "==================");
        push_line(&mut lines, l);
        assert(strings_view(lines@) =~= response_minimal_lines(self@, *info));
        join_strings(&lines, "\n")
    }

    #[verifier::rlimit(60)]
    fn inspect_rich(&self, info: &ResponseInfo) -> (s: String)
        requires
            response_cuts_cleanly(*info),
        ensures
            s@ == join_with(response_rich_lines(self@, *info), "\n"@),
    {
        let t = &self.theme;
        let mut lines: Vec<String> = Vec::new();
        assert(strings_view(lines@) =~= Seq::<Seq<char>>::empty());
        push_line(&mut lines, border_line(t, "┌─────────────────────────────────────────────┐"));
        let mut l = String::new();
        edge_into(&mut l, t);
        push_str(&mut l, " ");
        let h = t.header.to_ansi_fg();
        push_str(&mut l, h.as_str());
        push_str(&mut l, ANSI_BOLD);
        push_str(&mut l, "HTTP Response");
        push_str(&mut l, ANSI_RESET);
        push_str(&mut l, "                                ");
        colored(&mut l, &t.border, "│");
        push_line(&mut lines, l);
        push_line(&mut lines, border_line(t, "├─────────────────────────────────────────────┤"));
        let mut l = String::new();
        edge_into(&mut l, t);
        push_str(&mut l, " ");
        let sc = t.status_code_color(info.status);
        let bg = sc.to_ansi_bg();
        push_str(&mut l, bg.as_str());
        push_str(&mut l, ANSI_BOLD);
        push_str(&mut l, " ");
        push_str(&mut l, Self::status_icon(info.status));
        push_str(&mut l, " ");
        push_decimal(&mut l, info.status as u64);
        push_str(&mut l, " ");
        push_str(&mut l, ANSI_RESET);
        push_str(&mut l, " ");
        let r = Self::reason_text(info);
        push_str(&mut l, r.as_str());
        push_line(&mut lines, l);
        let ghost head = strings_view(lines@);
        assert(head[0] == top_border(*t));
        assert(head[2] == separator(*t));
        let mut prefix = String::new();
        edge_into(&mut prefix, t);
        push_str(&mut prefix, " ");
        let m = t.muted.to_ansi_fg();
        push_str(&mut prefix, m.as_str());
        push_str(&mut prefix, "Response time: ");
        timing_suffix_into(&mut lines, self.show_timing, info.response_time, prefix.as_str(), ANSI_RESET);
        let ghost with_time = strings_view(lines@);
        append_lines(&mut lines, rich_headers(t, &info.headers));
        append_lines(&mut lines, rich_body(t, &info.body_preview, info.body_size, info.body_truncated));
        push_line(&mut lines, border_line(t, "└─────────────────────────────────────────────┘"));
        assert(strings_view(lines@) =~= with_time + rich_headers_section(*t, headers_view(info.headers@))
            + rich_body_section(*t, opt_view(info.body_preview), info.body_size, info.body_truncated) + seq![bottom_border(*t)]);
        assert(strings_view(lines@) =~= response_rich_lines(self@, *info));
        join_strings(&lines, "\n")
    }
}

} // verus!

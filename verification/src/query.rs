//! Query string parsing: key/value pairs, repeated keys, percent-decoding.
use vstd::prelude::*;
use vstd::utf8::*;
use crate::text::{chars_of, find_char, find_char_from, lemma_find_char_bounds, lemma_find_char_prefix, lemma_find_char_shift, str_eq, str_has_char};

verus! {

/// A query string (without the leading `?`), parsed on each access.
#[derive(Debug, Clone, Copy)]
pub struct QueryString<'a> {
    raw: &'a str,
}

/// A key and its value; a key without `=` has the empty value.
pub open spec fn split_pair(seg: Seq<char>) -> (Seq<char>, Seq<char>) {
    match find_char(seg, '=', 0) {
        Some(i) => (seg.take(i), seg.skip(i + 1)),
        None => (seg, Seq::empty()),
    }
}

/// The pair of one `&`-separated segment; empty segments give none.
pub open spec fn segment_pairs(seg: Seq<char>) -> Seq<(Seq<char>, Seq<char>)> {
    if seg.len() == 0 {
        Seq::empty()
    } else {
        seq![split_pair(seg)]
    }
}

/// The key/value pairs of a query string, in order.
pub open spec fn query_pairs(s: Seq<char>) -> Seq<(Seq<char>, Seq<char>)>
    decreases s.len(),
{
    match find_char(s, '&', 0) {
        Some(i) => if 0 <= i < s.len() {
            segment_pairs(s.take(i)) + query_pairs(s.skip(i + 1))
        } else {
            Seq::empty()
        },
        None => segment_pairs(s),
    }
}

/// The values of `key`, in order.
pub open spec fn values_of(ps: Seq<(Seq<char>, Seq<char>)>, key: Seq<char>) -> Seq<Seq<char>>
    decreases ps.len(),
{
    if ps.len() == 0 {
        Seq::empty()
    } else if ps[0].0 == key {
        seq![ps[0].1] + values_of(ps.drop_first(), key)
    } else {
        values_of(ps.drop_first(), key)
    }
}

/// The first value of `key`.
pub open spec fn first_value(ps: Seq<(Seq<char>, Seq<char>)>, key: Seq<char>) -> Option<Seq<char>>
    decreases ps.len(),
{
    if ps.len() == 0 {
        None
    } else if ps[0].0 == key {
        Some(ps[0].1)
    } else {
        first_value(ps.drop_first(), key)
    }
}

pub open spec fn pair_view<'a>(p: (&'a str, &'a str)) -> (Seq<char>, Seq<char>) {
    (p.0@, p.1@)
}

pub open spec fn pairs_view<'a>(v: Seq<(&'a str, &'a str)>) -> Seq<(Seq<char>, Seq<char>)> {
    v.map_values(|p: (&'a str, &'a str)| pair_view(p))
}

pub open spec fn strs_view<'a>(v: Seq<&'a str>) -> Seq<Seq<char>> {
    v.map_values(|s: &'a str| s@)
}

pub open spec fn opt_str_view<'a>(o: Option<&'a str>) -> Option<Seq<char>> {
    match o {
        Some(s) => Some(s@),
        None => None,
    }
}

/// The value of `key` is its first value (law).
pub proof fn lemma_first_value_is_first_of_values(ps: Seq<(Seq<char>, Seq<char>)>, key: Seq<char>)
    ensures
        first_value(ps, key) == (if values_of(ps, key).len() > 0 {
            Some(values_of(ps, key)[0])
        } else {
            None
        }),
    decreases ps.len(),
{
    if ps.len() > 0 && ps[0].0 != key {
        lemma_first_value_is_first_of_values(ps.drop_first(), key);
    }
}

/// A key is present exactly when it has a first value (law).
pub proof fn lemma_contains_iff_first_value(ps: Seq<(Seq<char>, Seq<char>)>, key: Seq<char>)
    ensures
        (exists|i: int| 0 <= i < ps.len() && (#[trigger] ps[i]).0 == key) <==> first_value(ps, key) is Some,
    decreases ps.len(),
{
    if ps.len() > 0 {
        lemma_contains_iff_first_value(ps.drop_first(), key);
        if ps[0].0 != key {
            if exists|i: int| 0 <= i < ps.len() && (#[trigger] ps[i]).0 == key {
                let i = choose|i: int| 0 <= i < ps.len() && (#[trigger] ps[i]).0 == key;
                assert(ps.drop_first()[i - 1] == ps[i]);
            }
            if first_value(ps, key) is Some {
                let i = choose|i: int| 0 <= i < ps.drop_first().len() && (#[trigger] ps.drop_first()[i]).0 == key;
                assert(ps[i + 1] == ps.drop_first()[i]);
            }
        } else {
            assert(ps[0].0 == key);
        }
    }
}

impl<'a> View for QueryString<'a> {
    type V = Seq<char>;

    closed spec fn view(&self) -> Seq<char> {
        self.raw@
    }
}

impl<'a> QueryString<'a> {
    /// Wraps a raw query string.
    pub fn parse(raw: &'a str) -> (q: Self)
        ensures
            q@ == raw@,
    {
        QueryString { raw }
    }

    /// The query string is empty.
    pub fn is_empty(&self) -> (r: bool)
        ensures
            r == (self@.len() == 0),
    {
        self.raw.is_empty()
    }

    /// The raw query string.
    pub fn raw(&self) -> (r: &'a str)
        ensures
            r@ == self@,
    {
        self.raw
    }

    /// All key/value pairs, in order; values are not decoded.
    pub fn pairs(&self) -> (v: Vec<(&'a str, &'a str)>)
        ensures
            pairs_view(v@) == query_pairs(self@),
    {
        let cs = chars_of(self.raw);
        let n = cs.len();
        let mut out: Vec<(&'a str, &'a str)> = Vec::new();
        let mut start: usize = 0;
        assert(cs@.skip(0) == cs@);
        loop
            invariant
                cs@ == self.raw@,
                n == cs@.len(),
                start <= n,
                pairs_view(out@) + query_pairs(cs@.skip(start as int)) == query_pairs(cs@),
            decreases n - start,
        {
            let ghost rest = cs@.skip(start as int);
            proof {
                lemma_find_char_bounds(cs@, '&', start as int);
                lemma_find_char_bounds(rest, '&', 0);
                lemma_find_char_shift(cs@, '&', start as int);
            }
            let end = match find_char_from(cs.as_slice(), '&', start) {
                Some(j) => j,
                None => n,
            };
            let ghost seg = cs@.subrange(start as int, end as int);
            let ghost before = pairs_view(out@);
            if end > start {
                proof {
                    lemma_find_char_bounds(seg, '=', 0);
                    lemma_find_char_shift(cs@.take(end as int), '=', start as int);
                    assert(cs@.take(end as int).skip(start as int) == seg);
                }
                proof {
                    lemma_find_char_bounds(cs@, '=', start as int);
                    lemma_find_char_prefix(cs@, '=', start as int, end as int);
                }
                let found = find_char_from(cs.as_slice(), '=', start);
                let pair = if found.is_some() && found.unwrap() < end {
                    let e = found.unwrap();
                    let k = self.raw.substring_char(start, e);
                    let v = self.raw.substring_char(e + 1, end);
                    assert(k@ == seg.take(e - start));
                    assert(v@ == seg.skip(e - start + 1));
                    (k, v)
                } else {
                    let k = self.raw.substring_char(start, end);
                    let v = self.raw.substring_char(end, end);
                    assert(v@ =~= Seq::<char>::empty());
                    (k, v)
                };
                out.push(pair);
                assert(pairs_view(out@) =~= before.push(pair_view(pair)));
            }
            proof {
                assert(segment_pairs(seg) == (if end > start { seq![split_pair(seg)] } else { Seq::empty() }));
                if end < n {
                    assert(rest.take(end - start) == seg);
                    assert(rest.skip(end - start + 1) == cs@.skip(end + 1));
                    assert(pairs_view(out@) =~= before + segment_pairs(seg));
                    assert(before + query_pairs(rest) == before + (segment_pairs(seg) + query_pairs(cs@.skip(end + 1))));
                } else {
                    assert(rest == seg);
                    assert(pairs_view(out@) =~= before + segment_pairs(seg));
                }
            }
            if end >= n {
                return out;
            }
            start = end + 1;
        }
    }

    /// The first value of `key`, not decoded.
    pub fn get(&self, key: &str) -> (r: Option<&'a str>)
        ensures
            opt_str_view(r) == first_value(query_pairs(self@), key@),
    {
        let ps = self.pairs();
        let mut i: usize = 0;
        assert(pairs_view(ps@).skip(0) == pairs_view(ps@));
        while i < ps.len()
            invariant
                i <= ps.len(),
                pairs_view(ps@) == query_pairs(self@),
                first_value(query_pairs(self@), key@) == first_value(pairs_view(ps@).skip(i as int), key@),
            decreases ps.len() - i,
        {
            let ghost rest = pairs_view(ps@).skip(i as int);
            assert(rest[0] == pair_view(ps@[i as int]));
            assert(rest.drop_first() == pairs_view(ps@).skip(i + 1));
            if str_eq(ps[i].0, key) {
                return Some(ps[i].1);
            }
            i += 1;
        }
        None
    }

    /// All values of `key`, in order, not decoded.
    pub fn get_all(&self, key: &str) -> (r: Vec<&'a str>)
        ensures
            strs_view(r@) == values_of(query_pairs(self@), key@),
    {
        let ps = self.pairs();
        let mut out: Vec<&'a str> = Vec::new();
        let mut i: usize = 0;
        assert(pairs_view(ps@).skip(0) == pairs_view(ps@));
        assert(strs_view(out@) =~= Seq::<Seq<char>>::empty());
        while i < ps.len()
            invariant
                i <= ps.len(),
                pairs_view(ps@) == query_pairs(self@),
                values_of(query_pairs(self@), key@) == strs_view(out@) + values_of(pairs_view(ps@).skip(i as int), key@),
            decreases ps.len() - i,
        {
            let ghost rest = pairs_view(ps@).skip(i as int);
            let ghost before = strs_view(out@);
            assert(rest[0] == pair_view(ps@[i as int]));
            assert(rest.drop_first() == pairs_view(ps@).skip(i + 1));
            if str_eq(ps[i].0, key) {
                out.push(ps[i].1);
                assert(strs_view(out@) =~= before.push(ps@[i as int].1@));
                assert(before + values_of(rest, key@) =~= strs_view(out@) + values_of(rest.drop_first(), key@));
            }
            i += 1;
        }
        assert(pairs_view(ps@).skip(ps.len() as int) =~= Seq::<(Seq<char>, Seq<char>)>::empty());
        assert(strs_view(out@) + Seq::<Seq<char>>::empty() == strs_view(out@));
        out
    }

    /// The first value of `key`, percent-decoded.
    pub fn get_decoded(&self, key: &str) -> (r: Option<Decoded<'a>>)
        ensures
            match first_value(query_pairs(self@), key@) {
                None => r is None,
                Some(v) => (r matches Some(d) && d@ == decoded_text(v)),
            },
    {
        match self.get(key) {
            Some(v) => Some(percent_decode(v)),
            None => None,
        }
    }

    /// `key` occurs in the query string.
    pub fn contains(&self, key: &str) -> (r: bool)
        ensures
            r == first_value(query_pairs(self@), key@) is Some,
    {
        self.get(key).is_some()
    }

    /// All pairs with their values percent-decoded.
    pub fn pairs_decoded(&self) -> (v: Vec<(&'a str, Decoded<'a>)>)
        ensures
            v@.len() == query_pairs(self@).len(),
            forall|i: int| 0 <= i < v@.len() ==> (#[trigger] v@[i]).0@ == query_pairs(self@)[i].0
                && v@[i].1@ == decoded_text(query_pairs(self@)[i].1),
    {
        let ps = self.pairs();
        let mut out: Vec<(&'a str, Decoded<'a>)> = Vec::new();
        let mut i: usize = 0;
        while i < ps.len()
            invariant
                i <= ps.len(),
                out@.len() == i,
                pairs_view(ps@) == query_pairs(self@),
                forall|j: int| 0 <= j < i ==> (#[trigger] out@[j]).0@ == query_pairs(self@)[j].0
                    && out@[j].1@ == decoded_text(query_pairs(self@)[j].1),
            decreases ps.len() - i,
        {
            assert(pairs_view(ps@)[i as int] == pair_view(ps@[i as int]));
            let d = percent_decode(ps[i].1);
            out.push((ps[i].0, d));
            i += 1;
        }
        out
    }

    /// All pairs, collected.
    pub fn to_pairs(&self) -> (v: Vec<(&'a str, &'a str)>)
        ensures
            pairs_view(v@) == query_pairs(self@),
    {
        self.pairs()
    }

    /// The number of pairs.
    pub fn len(&self) -> (n: usize)
        ensures
            n == query_pairs(self@).len(),
    {
        let ps = self.pairs();
        assert(pairs_view(ps@).len() == ps@.len());
        ps.len()
    }
}

impl<'a> Default for QueryString<'a> {
    fn default() -> (q: Self)
        ensures
            q@ == Seq::<char>::empty(),
    {
        let raw = "";
        proof {
            reveal_strlit("");
        }
        QueryString { raw }
    }
}

// ============================================================================
// Percent-decoding
// ============================================================================

/// Decodes bytes as UTF-8, replacing invalid sequences with U+FFFD
/// (`String::from_utf8_lossy`).
pub uninterp spec fn utf8_lossy(bytes: Seq<u8>) -> Seq<char>;

/// `String::from_utf8_lossy(bytes).into_owned()`: the decoded text, which
/// for valid UTF-8 is exactly its characters.
#[verifier::external_body]
fn string_from_utf8_lossy(bytes: &[u8]) -> (s: String)
    ensures
        s@ == utf8_lossy(bytes@),
        valid_utf8(bytes@) ==> s@ == decode_utf8(bytes@),
{
    String::from_utf8_lossy(bytes).into_owned()
}

/// The value of a hexadecimal digit byte.
pub open spec fn hex_byte_value(b: u8) -> Option<u8> {
    if 48 <= b && b <= 57 {
        Some((b - 48) as u8)
    } else if 97 <= b && b <= 102 {
        Some((b - 97 + 10) as u8)
    } else if 65 <= b && b <= 70 {
        Some((b - 65 + 10) as u8)
    } else {
        None
    }
}

/// Converts a hex digit byte to its value.
pub fn hex_digit(b: u8) -> (r: Option<u8>)
    ensures
        r == hex_byte_value(b),
{
    if 48 <= b && b <= 57 {
        Some(b - 48)
    } else if 97 <= b && b <= 102 {
        Some(b - 97 + 10)
    } else if 65 <= b && b <= 70 {
        Some(b - 65 + 10)
    } else {
        None
    }
}

/// Percent-decodes bytes: `%XX` with two hex digits becomes that byte, `+`
/// becomes a space, anything else (a lone or malformed `%` too) stays.
pub open spec fn pct_decode_bytes(b: Seq<u8>) -> Seq<u8>
    decreases b.len(),
{
    if b.len() == 0 {
        Seq::empty()
    } else if b[0] == 37u8 && b.len() > 2 && hex_byte_value(b[1]) is Some && hex_byte_value(b[2]) is Some {
        seq![(hex_byte_value(b[1]).unwrap() * 16 + hex_byte_value(b[2]).unwrap()) as u8] + pct_decode_bytes(b.skip(3))
    } else if b[0] == 43u8 {
        seq![32u8] + pct_decode_bytes(b.skip(1))
    } else {
        seq![b[0]] + pct_decode_bytes(b.skip(1))
    }
}

/// An ASCII hexadecimal digit, in either case.
pub open spec fn is_hex_ascii(x: u8) -> bool {
    (48 <= x <= 57) || (97 <= x <= 102) || (65 <= x <= 70)
}

/// The value of an ASCII hexadecimal digit.
pub open spec fn hex_ascii_value(x: u8) -> int {
    if 48 <= x <= 57 {
        x - 48
    } else if 97 <= x <= 102 {
        x - 87
    } else {
        x - 55
    }
}

/// The upper-case form of an ASCII letter `a`..`f`; any other byte as is.
pub open spec fn hex_upper(x: u8) -> u8 {
    if 97 <= x <= 102 { (x - 32) as u8 } else { x }
}

/// `+` decodes to a space, and a byte that starts no escape stays as it is.
pub proof fn lemma_percent_plain(x: u8, rest: Seq<u8>)
    requires
        x != 37u8,
    ensures
        pct_decode_bytes(seq![x] + rest) == seq![if x == 43u8 { 32u8 } else { x }] + pct_decode_bytes(rest),
{
    assert((seq![x] + rest).skip(1) =~= rest);
}

/// `%` and two hexadecimal digits, in either case, decode to the single
/// byte they name, and what follows decodes on its own; so decoding does
/// not depend on the case of the digits (`%2f` and `%2F` both give `/`).
pub proof fn lemma_percent_escape(x: u8, y: u8, rest: Seq<u8>)
    requires
        is_hex_ascii(x),
        is_hex_ascii(y),
    ensures
        pct_decode_bytes(seq![37u8, x, y] + rest) == seq![(hex_ascii_value(x) * 16 + hex_ascii_value(y)) as u8]
            + pct_decode_bytes(rest),
        pct_decode_bytes(seq![37u8, x, y] + rest) == pct_decode_bytes(seq![37u8, hex_upper(x), hex_upper(y)] + rest),
{
    let b = seq![37u8, x, y] + rest;
    assert(b.skip(3) =~= rest);
    let b2 = seq![37u8, hex_upper(x), hex_upper(y)] + rest;
    assert(b2.skip(3) =~= rest);
}

/// The text that percent-decoding `s` gives.
pub open spec fn decoded_text(s: Seq<char>) -> Seq<char> {
    if !s.contains('%') && !s.contains('+') {
        s
    } else {
        utf8_lossy(pct_decode_bytes(encode_utf8(s)))
    }
}

/// A percent-decoded string: the input itself when nothing needed decoding.
#[derive(Debug, Clone)]
pub enum Decoded<'a> {
    Borrowed(&'a str),
    Owned(String),
}

impl<'a> View for Decoded<'a> {
    type V = Seq<char>;

    open spec fn view(&self) -> Seq<char> {
        match self {
            Decoded::Borrowed(s) => s@,
            Decoded::Owned(s) => s@,
        }
    }
}

impl<'a> Decoded<'a> {
    /// The decoded text.
    pub fn as_str(&self) -> (s: &str)
        ensures
            s@ == self@,
    {
        match self {
            Decoded::Borrowed(s) => s,
            Decoded::Owned(s) => s.as_str(),
        }
    }
}

impl<'a> core::ops::Deref for Decoded<'a> {
    type Target = str;

    fn deref(&self) -> &str {
        self.as_str()
    }
}

/// Percent-decodes a string.
pub fn percent_decode(s: &str) -> (r: Decoded<'_>)
    ensures
        r@ == decoded_text(s@),
        (!s@.contains('%') && !s@.contains('+')) <==> r is Borrowed,
{
    if !str_has_char(s, '%') && !str_has_char(s, '+') {
        return Decoded::Borrowed(s);
    }
    let bytes = s.as_bytes();
    let mut out: Vec<u8> = Vec::new();
    let mut i: usize = 0;
    assert(bytes@.skip(0) == bytes@);
    assert(out@ + pct_decode_bytes(bytes@) == pct_decode_bytes(bytes@));
    while i < bytes.len()
        invariant
            i <= bytes@.len(),
            out@ + pct_decode_bytes(bytes@.skip(i as int)) == pct_decode_bytes(bytes@),
        decreases bytes.len() - i,
    {
        let ghost rest = bytes@.skip(i as int);
        let ghost before = out@;
        let b = bytes[i];
        assert(rest[0] == b);
        if b == 37u8 && bytes.len() >= 3 && i < bytes.len() - 2 {
            assert(rest[1] == bytes@[i + 1] && rest[2] == bytes@[i + 2]);
            match (hex_digit(bytes[i + 1]), hex_digit(bytes[i + 2])) {
                (Some(hi), Some(lo)) => {
                    out.push(hi * 16 + lo);
                    assert(rest.skip(3) == bytes@.skip(i + 3));
                    i += 3;
                },
                _ => {
                    out.push(37u8);
                    assert(rest.skip(1) == bytes@.skip(i + 1));
                    i += 1;
                },
            }
        } else if b == 43u8 {
            out.push(32u8);
            assert(rest.skip(1) == bytes@.skip(i + 1));
            i += 1;
        } else {
            out.push(b);
            assert(rest.skip(1) == bytes@.skip(i + 1));
            i += 1;
        }
        assert(out@ + pct_decode_bytes(bytes@.skip(i as int)) == before + pct_decode_bytes(rest));
    }
    assert(bytes@.skip(bytes@.len() as int) =~= Seq::<u8>::empty());
    assert(out@ + Seq::<u8>::empty() == out@);
    Decoded::Owned(string_from_utf8_lossy(out.as_slice()))
}

} // verus!

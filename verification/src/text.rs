use vstd::prelude::*;
use vstd::string::*;
use vstd::utf8::*;

verus! {

/// Collects the characters of a string slice into a vector.
pub fn chars_of(s: &str) -> (v: Vec<char>)
    ensures
        v@ == s@,
{
    let mut v: Vec<char> = Vec::new();
    for c in it: s.chars()
        invariant
            it.seq() == s@,
            v@ == it.seq().take(it.index() as int),
    {
        v.push(c);
    }
    v
}

/// Appends one character to a string (`String::push`).
#[verifier::external_body]
pub(crate) fn push_char(s: &mut String, c: char)
    ensures
        final(s)@ == old(s)@.push(c),
{
    s.push(c);
}

/// Appends a string slice to a string.
pub fn push_str(s: &mut String, t: &str)
    ensures
        final(s)@ == old(s)@ + t@,
{
    s.append(t);
}

/// Builds a string from a character sequence.
pub fn string_from_chars(cs: &[char]) -> (s: String)
    ensures
        s@ == cs@,
{
    let mut s = String::new();
    let mut i: usize = 0;
    while i < cs.len()
        invariant
            i <= cs.len(),
            s@ == cs@.take(i as int),
        decreases cs.len() - i,
    {
        push_char(&mut s, cs[i]);
        i += 1;
        assert(cs@.take(i as int) == cs@.take(i - 1).push(cs@[i - 1]));
    }
    assert(cs@.take(cs.len() as int) == cs@);
    s
}

/// The decimal digit character for a value below ten.
pub open spec fn digit_char(d: nat) -> char {
    if d == 0 { '0' }
    else if d == 1 { '1' }
    else if d == 2 { '2' }
    else if d == 3 { '3' }
    else if d == 4 { '4' }
    else if d == 5 { '5' }
    else if d == 6 { '6' }
    else if d == 7 { '7' }
    else if d == 8 { '8' }
    else { '9' }
}

/// The decimal notation of a natural number, without leading zeros.
pub open spec fn decimal(n: nat) -> Seq<char>
    decreases n,
{
    if n < 10 {
        seq![digit_char(n)]
    } else {
        decimal(n / 10).push(digit_char(n % 10))
    }
}

fn digit_of(d: u64) -> (c: char)
    requires
        d < 10,
    ensures
        c == digit_char(d as nat),
{
    if d == 0 { '0' }
    else if d == 1 { '1' }
    else if d == 2 { '2' }
    else if d == 3 { '3' }
    else if d == 4 { '4' }
    else if d == 5 { '5' }
    else if d == 6 { '6' }
    else if d == 7 { '7' }
    else if d == 8 { '8' }
    else { '9' }
}

/// Appends the decimal notation of `n`.
pub fn push_decimal(s: &mut String, n: u64)
    ensures
        final(s)@ == old(s)@ + decimal(n as nat),
    decreases n,
{
    if n >= 10 {
        push_decimal(s, n / 10);
        push_char(s, digit_of(n % 10));
        assert(old(s)@ + decimal(n as nat) == old(s)@ + decimal((n / 10) as nat) + seq![
            digit_char((n % 10) as nat),
        ]);
    } else {
        push_char(s, digit_of(n));
        assert(decimal(n as nat) == seq![digit_char(n as nat)]);
    }
}

/// Appends the decimal notation of a 128-bit `n`.
pub fn push_decimal_u128(s: &mut String, n: u128)
    ensures
        final(s)@ == old(s)@ + decimal(n as nat),
    decreases n,
{
    if n >= 10 {
        push_decimal_u128(s, n / 10);
        push_char(s, digit_of((n % 10) as u64));
        assert(old(s)@ + decimal(n as nat) == old(s)@ + decimal((n / 10) as nat) + seq![
            digit_char((n % 10) as nat),
        ]);
    } else {
        push_char(s, digit_of(n as u64));
        assert(decimal(n as nat) == seq![digit_char(n as nat)]);
    }
}

/// The decimal notation of `n` as a new string.
pub fn decimal_string(n: u64) -> (s: String)
    ensures
        s@ == decimal(n as nat),
{
    let mut s = String::new();
    push_decimal(&mut s, n);
    assert(s@ == Seq::<char>::empty() + decimal(n as nat));
    s
}

#[verifier::external_type_specification]
#[verifier::external_body]
pub struct ExUtf8Error(std::str::Utf8Error);

/// `std::str::from_utf8`: `Ok` exactly when the bytes are valid UTF-8,
/// holding the decoded characters.
#[verifier::external_body]
pub(crate) fn from_utf8(bytes: &[u8]) -> (r: Result<&str, std::str::Utf8Error>)
    ensures
        r is Ok <==> valid_utf8(bytes@),
        r matches Ok(s) ==> s@ == decode_utf8(bytes@),
{
    std::str::from_utf8(bytes)
}

/// Decodes bytes as UTF-8: `Some` exactly when the bytes are valid UTF-8,
/// holding the decoded characters.
pub fn utf8_str(bytes: &[u8]) -> (r: Option<&str>)
    ensures
        r is Some <==> valid_utf8(bytes@),
        r matches Some(s) ==> s@ == decode_utf8(bytes@),
{
    match from_utf8(bytes) {
        Ok(s) => Some(s),
        Err(_) => None,
    }
}

/// Unicode `White_Space`, as `char::is_whitespace` and `str::trim` use it.
pub open spec fn is_space(c: char) -> bool {
    let u = c as u32;
    (9 <= u && u <= 13) || u == 32 || u == 0x85 || u == 0xA0 || u == 0x1680 || (0x2000 <= u
        && u <= 0x200A) || u == 0x2028 || u == 0x2029 || u == 0x202F || u == 0x205F || u
        == 0x3000
}

pub fn char_is_space(c: char) -> (b: bool)
    ensures
        b == is_space(c),
{
    let u = c as u32;
    (9 <= u && u <= 13) || u == 32 || u == 0x85 || u == 0xA0 || u == 0x1680 || (0x2000 <= u
        && u <= 0x200A) || u == 0x2028 || u == 0x2029 || u == 0x202F || u == 0x205F || u
        == 0x3000
}

/// Drops leading white space.
pub open spec fn trim_start(cs: Seq<char>) -> Seq<char>
    decreases cs.len(),
{
    if cs.len() > 0 && is_space(cs[0]) {
        trim_start(cs.drop_first())
    } else {
        cs
    }
}

/// Drops trailing white space.
pub open spec fn trim_end(cs: Seq<char>) -> Seq<char>
    decreases cs.len(),
{
    if cs.len() > 0 && is_space(cs.last()) {
        trim_end(cs.drop_last())
    } else {
        cs
    }
}

/// Drops leading and trailing white space.
pub open spec fn trim(cs: Seq<char>) -> Seq<char> {
    trim_end(trim_start(cs))
}

/// The bounds `(lo, hi)` of the trimmed part of `cs`.
pub fn trim_bounds(cs: &[char]) -> (r: (usize, usize))
    ensures
        r.0 <= r.1 <= cs.len(),
        cs@.subrange(r.0 as int, r.1 as int) == trim(cs@),
{
    let mut lo: usize = 0;
    assert(cs@.subrange(0, cs.len() as int) == cs@);
    while lo < cs.len() && char_is_space(cs[lo])
        invariant
            lo <= cs.len(),
            trim_start(cs@) == trim_start(cs@.subrange(lo as int, cs.len() as int)),
        decreases cs.len() - lo,
    {
        assert(cs@.subrange(lo + 1, cs.len() as int) == cs@.subrange(
            lo as int,
            cs.len() as int,
        ).drop_first());
        lo += 1;
    }
    assert(trim_start(cs@) == cs@.subrange(lo as int, cs.len() as int));
    let mut hi: usize = cs.len();
    while hi > lo && char_is_space(cs[hi - 1])
        invariant
            lo <= hi <= cs.len(),
            trim_end(cs@.subrange(lo as int, cs.len() as int)) == trim_end(
                cs@.subrange(lo as int, hi as int),
            ),
        decreases hi,
    {
        assert(cs@.subrange(lo as int, hi - 1) == cs@.subrange(lo as int, hi as int).drop_last());
        hi -= 1;
    }
    (lo, hi)
}

/// The value of a hexadecimal digit, if `c` is one.
pub open spec fn hex_digit_value(c: char) -> Option<nat> {
    if '0' <= c && c <= '9' {
        Some((c as u32 - '0' as u32) as nat)
    } else if 'a' <= c && c <= 'f' {
        Some((c as u32 - 'a' as u32 + 10) as nat)
    } else if 'A' <= c && c <= 'F' {
        Some((c as u32 - 'A' as u32 + 10) as nat)
    } else {
        None
    }
}

pub fn hex_digit(c: char) -> (r: Option<u8>)
    ensures
        r matches Some(d) ==> hex_digit_value(c) == Some(d as nat),
        r is None ==> hex_digit_value(c) is None,
{
    if '0' <= c && c <= '9' {
        Some((c as u32 - '0' as u32) as u8)
    } else if 'a' <= c && c <= 'f' {
        Some((c as u32 - 'a' as u32 + 10) as u8)
    } else if 'A' <= c && c <= 'F' {
        Some((c as u32 - 'A' as u32 + 10) as u8)
    } else {
        None
    }
}

/// Every character is a hexadecimal digit.
pub open spec fn all_hex(cs: Seq<char>) -> bool {
    forall|i: int| 0 <= i < cs.len() ==> (#[trigger] hex_digit_value(cs[i])) is Some
}

/// The value of a string of hexadecimal digits.
pub open spec fn hex_value(cs: Seq<char>) -> nat
    decreases cs.len(),
{
    if cs.len() == 0 {
        0
    } else {
        hex_value(cs.drop_last()) * 16 + hex_digit_value(cs.last()).unwrap_or(0)
    }
}

pub proof fn lemma_hex_value_prefix(cs: Seq<char>, i: int)
    requires
        0 <= i <= cs.len(),
    ensures
        hex_value(cs.take(i)) <= hex_value(cs),
    decreases cs.len() - i,
{
    if i < cs.len() {
        lemma_hex_value_prefix(cs, i + 1);
        assert(cs.take(i + 1).drop_last() == cs.take(i));
    } else {
        assert(cs.take(i) == cs);
    }
}

/// What `usize::from_str_radix(s, 16)` accepts: one optional `+`, then at
/// least one hexadecimal digit, with a value that fits in `usize`.
pub open spec fn radix16_digits(cs: Seq<char>) -> Seq<char> {
    if cs.len() > 0 && cs[0] == '+' {
        cs.drop_first()
    } else {
        cs
    }
}

pub open spec fn parse_hex_usize(cs: Seq<char>) -> Option<nat> {
    let d = radix16_digits(cs);
    if d.len() > 0 && all_hex(d) && hex_value(d) <= usize::MAX {
        Some(hex_value(d))
    } else {
        None
    }
}

/// Parses `cs[lo..hi]` as by `usize::from_str_radix(.., 16)`.
pub fn parse_hex_range(cs: &[char], lo: usize, hi: usize) -> (r: Option<usize>)
    requires
        lo <= hi <= cs.len(),
    ensures
        r matches Some(v) ==> parse_hex_usize(cs@.subrange(lo as int, hi as int)) == Some(
            v as nat,
        ),
        r is None ==> parse_hex_usize(cs@.subrange(lo as int, hi as int)) is None,
{
    let ghost whole = cs@.subrange(lo as int, hi as int);
    let mut start = lo;
    if lo < hi && cs[lo] == '+' {
        start = lo + 1;
        assert(cs@.subrange(start as int, hi as int) == whole.drop_first());
    }
    let ghost d = cs@.subrange(start as int, hi as int);
    assert(d == radix16_digits(whole));
    if start >= hi {
        return None;
    }
    let mut acc: u128 = 0;
    let mut i = start;
    while i < hi
        invariant
            lo <= start <= i <= hi <= cs.len(),
            d == cs@.subrange(start as int, hi as int),
            whole == cs@.subrange(lo as int, hi as int),
            d == radix16_digits(whole),
            acc == hex_value(d.take(i - start)),
            acc <= usize::MAX,
            all_hex(d.take(i - start)),
        decreases hi - i,
    {
        let k = i - start;
        assert(d.take(k + 1).drop_last() == d.take(k as int));
        assert(d[k as int] == cs@[i as int]);
        match hex_digit(cs[i]) {
            None => {
                assert(hex_digit_value(d[k as int]) is None);
                assert(!all_hex(d));
                return None;
            },
            Some(v) => {
                assert(d.take(k + 1).last() == d[k as int]);
                acc = acc * 16 + v as u128;
                if acc > usize::MAX as u128 {
                    proof {
                        lemma_hex_value_prefix(d, k + 1);
                    }
                    return None;
                }
            },
        }
        i += 1;
        assert forall|j: int| 0 <= j < d.take(i - start).len() implies (#[trigger] hex_digit_value(
            d.take(i - start)[j],
        )) is Some by {
            if j < k {
                assert(d.take(i - start)[j] == d.take(k as int)[j]);
            }
        }
    }
    assert(d.take(hi - start) == d);
    Some(acc as usize)
}


/// The first index at or after `from` that holds `c`.
pub open spec fn find_char(s: Seq<char>, c: char, from: int) -> Option<int>
    decreases s.len() - from,
{
    if from < 0 || from >= s.len() {
        None
    } else if s[from] == c {
        Some(from)
    } else {
        find_char(s, c, from + 1)
    }
}

pub proof fn lemma_find_char_bounds(s: Seq<char>, c: char, from: int)
    ensures
        find_char(s, c, from) matches Some(i) ==> from <= i < s.len() && s[i] == c
            && forall|j: int| from <= j < i ==> s[j] != c,
        find_char(s, c, from) is None ==> forall|j: int| 0 <= from <= j < s.len() ==> s[j] != c,
    decreases s.len() - from,
{
    if from < 0 || from >= s.len() {
    } else if s[from] == c {
    } else {
        lemma_find_char_bounds(s, c, from + 1);
    }
}

/// Finds the first `c` at or after `from`.
pub fn find_char_from(cs: &[char], c: char, from: usize) -> (r: Option<usize>)
    ensures
        r == (match find_char(cs@, c, from as int) {
            Some(i) => Some(i as usize),
            None => None::<usize>,
        }),
{
    let mut i = from;
    while i < cs.len()
        invariant
            from <= i,
            find_char(cs@, c, from as int) == find_char(cs@, c, i as int),
        decreases cs.len() - i,
    {
        if cs[i] == c {
            return Some(i);
        }
        i += 1;
    }
    None
}

/// `s` holds the character `c`.
pub fn str_has_char(s: &str, c: char) -> (r: bool)
    ensures
        r == s@.contains(c),
{
    let cs = chars_of(s);
    let mut i: usize = 0;
    while i < cs.len()
        invariant
            i <= cs.len(),
            cs@ == s@,
            forall|j: int| 0 <= j < i ==> cs@[j] != c,
        decreases cs.len() - i,
    {
        if cs[i] == c {
            assert(s@[i as int] == c);
            return true;
        }
        i += 1;
    }
    false
}

/// Two strings hold the same characters.
pub fn str_eq(a: &str, b: &str) -> (r: bool)
    ensures
        r == (a@ == b@),
{
    let x = chars_of(a);
    let y = chars_of(b);
    if x.len() != y.len() {
        return false;
    }
    let mut i: usize = 0;
    while i < x.len()
        invariant
            i <= x.len() == y.len(),
            x@ == a@,
            y@ == b@,
            forall|j: int| 0 <= j < i ==> x@[j] == y@[j],
        decreases x.len() - i,
    {
        if x[i] != y[i] {
            return false;
        }
        i += 1;
    }
    assert(x@ =~= y@);
    true
}


/// Searching from `pos` in the suffix finds the same `c`, shifted by `pos`.
pub proof fn lemma_find_char_shift(s: Seq<char>, c: char, pos: int)
    requires
        0 <= pos <= s.len(),
    ensures
        find_char(s.skip(pos), c, 0) == (match find_char(s, c, pos) {
            Some(e) => Some(e - pos),
            None => None::<int>,
        }),
{
    lemma_find_char_shift_from(s, c, pos, 0);
}

proof fn lemma_find_char_shift_from(s: Seq<char>, c: char, pos: int, k: int)
    requires
        0 <= pos <= s.len(),
        0 <= k,
    ensures
        find_char(s.skip(pos), c, k) == (match find_char(s, c, pos + k) {
            Some(e) => Some(e - pos),
            None => None::<int>,
        }),
    decreases s.len() - pos - k,
{
    if k < s.skip(pos).len() && s.skip(pos)[k] != c {
        lemma_find_char_shift_from(s, c, pos, k + 1);
    }
}

/// Searching a prefix finds what the whole finds before the prefix ends.
pub proof fn lemma_find_char_prefix(s: Seq<char>, c: char, from: int, end: int)
    requires
        0 <= from <= end <= s.len(),
    ensures
        find_char(s.take(end), c, from) == (match find_char(s, c, from) {
            Some(e) => if e < end { Some(e) } else { None::<int> },
            None => None::<int>,
        }),
    decreases end - from,
{
    lemma_find_char_bounds(s, c, from);
    if from < end && s[from] != c {
        lemma_find_char_prefix(s, c, from + 1, end);
    }
}


/// ASCII lower-casing of one character; other characters stay.
pub open spec fn ascii_lower(c: char) -> char {
    if 'A' <= c && c <= 'Z' {
        ((c as u32) + 32) as char
    } else {
        c
    }
}

pub fn char_ascii_lower(c: char) -> (r: char)
    ensures
        r == ascii_lower(c),
{
    if 'A' <= c && c <= 'Z' {
        ((c as u8) + 32) as char
    } else {
        c
    }
}

/// ASCII lower-casing of every character.
pub open spec fn lower_all(s: Seq<char>) -> Seq<char> {
    s.map_values(|c: char| ascii_lower(c))
}

/// Equal after ASCII lower-casing (`eq_ignore_ascii_case`).
pub open spec fn eq_ignore_case(a: Seq<char>, b: Seq<char>) -> bool {
    lower_all(a) == lower_all(b)
}

pub fn chars_eq_ignore_case(a: &[char], b: &str) -> (r: bool)
    ensures
        r == eq_ignore_case(a@, b@),
{
    let y = chars_of(b);
    if a.len() != y.len() {
        assert(lower_all(a@).len() != lower_all(b@).len());
        return false;
    }
    let mut i: usize = 0;
    while i < a.len()
        invariant
            i <= a.len() == y.len(),
            y@ == b@,
            forall|j: int| 0 <= j < i ==> ascii_lower(a@[j]) == ascii_lower(y@[j]),
        decreases a.len() - i,
    {
        if char_ascii_lower(a[i]) != char_ascii_lower(y[i]) {
            assert(lower_all(a@)[i as int] != lower_all(b@)[i as int]);
            return false;
        }
        i += 1;
    }
    assert(lower_all(a@) =~= lower_all(b@));
    true
}

/// ASCII lower-cased copy.
pub fn lower_chars(a: &[char]) -> (r: Vec<char>)
    ensures
        r@ == lower_all(a@),
{
    let mut out: Vec<char> = Vec::new();
    let mut i: usize = 0;
    while i < a.len()
        invariant
            i <= a.len(),
            out@ == lower_all(a@.take(i as int)),
        decreases a.len() - i,
    {
        out.push(char_ascii_lower(a[i]));
        i += 1;
        assert(lower_all(a@.take(i as int)) =~= lower_all(a@.take(i - 1)).push(ascii_lower(a@[i - 1])));
    }
    assert(a@.take(a.len() as int) == a@);
    out
}

/// The pieces of `s` between occurrences of `c` (as `str::split`).
pub open spec fn split_char(s: Seq<char>, c: char) -> Seq<Seq<char>>
    decreases s.len(),
{
    match find_char(s, c, 0) {
        Some(i) => if 0 <= i < s.len() {
            seq![s.take(i)] + split_char(s.skip(i + 1), c)
        } else {
            seq![s]
        },
        None => seq![s],
    }
}

pub open spec fn vecs_view(v: Seq<Vec<char>>) -> Seq<Seq<char>> {
    v.map_values(|x: Vec<char>| x@)
}

/// Copies `cs[lo..hi]`.
pub fn slice_chars(cs: &[char], lo: usize, hi: usize) -> (r: Vec<char>)
    requires
        lo <= hi <= cs.len(),
    ensures
        r@ == cs@.subrange(lo as int, hi as int),
{
    let mut out: Vec<char> = Vec::new();
    let mut i = lo;
    while i < hi
        invariant
            lo <= i <= hi <= cs.len(),
            out@ == cs@.subrange(lo as int, i as int),
        decreases hi - i,
    {
        out.push(cs[i]);
        i += 1;
    }
    out
}

/// Splits at every `c`.
pub fn split_chars(cs: &[char], c: char) -> (r: Vec<Vec<char>>)
    ensures
        vecs_view(r@) == split_char(cs@, c),
{
    let mut out: Vec<Vec<char>> = Vec::new();
    let mut start: usize = 0;
    let n = cs.len();
    assert(cs@.skip(0) == cs@);
    loop
        invariant
            start <= n == cs.len(),
            vecs_view(out@) + split_char(cs@.skip(start as int), c) == split_char(cs@, c),
        decreases n - start,
    {
        let ghost rest = cs@.skip(start as int);
        let ghost before = vecs_view(out@);
        proof {
            lemma_find_char_bounds(cs@, c, start as int);
            lemma_find_char_bounds(rest, c, 0);
            lemma_find_char_shift(cs@, c, start as int);
        }
        match find_char_from(cs, c, start) {
            Some(j) => {
                let piece = slice_chars(cs, start, j);
                assert(rest.take(j - start) =~= cs@.subrange(start as int, j as int));
                out.push(piece);
                assert(vecs_view(out@) =~= before.push(rest.take(j - start)));
                assert(rest.skip(j - start + 1) == cs@.skip(j + 1));
                assert(before + split_char(rest, c) =~= vecs_view(out@) + split_char(cs@.skip(j + 1), c));
                start = j + 1;
            },
            None => {
                let piece = slice_chars(cs, start, n);
                out.push(piece);
                assert(rest == cs@.subrange(start as int, n as int));
                assert(vecs_view(out@) =~= before + seq![rest]);
                return out;
            },
        }
    }
}

/// The trimmed copy of `cs`.
pub fn trimmed(cs: &[char]) -> (r: Vec<char>)
    ensures
        r@ == trim(cs@),
{
    let (lo, hi) = trim_bounds(cs);
    slice_chars(cs, lo, hi)
}

/// `t` occurs in `s` starting at `i`.
pub open spec fn occurs_at(s: Seq<char>, t: Seq<char>, i: int) -> bool {
    0 <= i && i + t.len() <= s.len() && s.subrange(i, i + t.len()) == t
}

/// `t` occurs somewhere in `s`.
pub open spec fn has_substr(s: Seq<char>, t: Seq<char>) -> bool {
    exists|i: int| occurs_at(s, t, i)
}

/// Two consecutive dots occur in `s`.
pub fn has_double_dot(cs: &[char]) -> (r: bool)
    ensures
        r == has_substr(cs@, seq!['.', '.']),
{
    if cs.len() < 2 {
        assert forall|j: int| !occurs_at(cs@, seq!['.', '.'], j) by {}
        return false;
    }
    let mut i: usize = 0;
    while i < cs.len() - 1
        invariant
            cs.len() >= 2,
            forall|j: int| 0 <= j < i ==> !occurs_at(cs@, seq!['.', '.'], j),
        decreases cs.len() - i,
    {
        if cs[i] == '.' && cs[i + 1] == '.' {
            assert(cs@.subrange(i as int, i + 2) =~= seq!['.', '.']);
            assert(occurs_at(cs@, seq!['.', '.'], i as int));
            return true;
        }
        assert(!occurs_at(cs@, seq!['.', '.'], i as int)) by {
            if occurs_at(cs@, seq!['.', '.'], i as int) {
                assert(cs@.subrange(i as int, i + 2)[0] == cs@[i as int]);
                assert(cs@.subrange(i as int, i + 2)[1] == cs@[i + 1]);
            }
        }
        i += 1;
    }
    assert forall|j: int| !occurs_at(cs@, seq!['.', '.'], j) by {
        if j >= i && occurs_at(cs@, seq!['.', '.'], j) {
            assert(j + 2 <= cs@.len());
        }
    }
    false
}

/// `c` occurs in `cs`.
pub fn has_char(cs: &[char], c: char) -> (r: bool)
    ensures
        r == cs@.contains(c),
{
    let mut i: usize = 0;
    while i < cs.len()
        invariant
            i <= cs.len(),
            forall|j: int| 0 <= j < i ==> cs@[j] != c,
        decreases cs.len() - i,
    {
        if cs[i] == c {
            assert(cs@[i as int] == c);
            return true;
        }
        i += 1;
    }
    false
}


/// Unicode lower-casing of a text (`str::to_lowercase`).
pub uninterp spec fn unicode_lowercase(s: Seq<char>) -> Seq<char>;

/// `str::to_lowercase`.
#[verifier::external_body]
pub(crate) fn to_lowercase(s: &str) -> (r: String)
    ensures
        r@ == unicode_lowercase(s@),
{
    s.to_lowercase()
}

/// Unicode upper-casing of a text (`str::to_uppercase`).
pub uninterp spec fn unicode_uppercase(s: Seq<char>) -> Seq<char>;

/// `str::to_uppercase`.
#[verifier::external_body]
pub(crate) fn to_uppercase(s: &str) -> (r: String)
    ensures
        r@ == unicode_uppercase(s@),
{
    s.to_uppercase()
}

/// `n` copies of `c`.
pub fn repeat_char(c: char, n: usize) -> (s: String)
    ensures
        s@ == Seq::new(n as nat, |i: int| c),
{
    let mut s = String::new();
    let mut i: usize = 0;
    while i < n
        invariant
            i <= n,
            s@ == Seq::new(i as nat, |j: int| c),
        decreases n - i,
    {
        push_char(&mut s, c);
        i += 1;
        assert(s@ =~= Seq::new(i as nat, |j: int| c));
    }
    s
}

/// The lowercase hexadecimal digit for a value below sixteen.
pub open spec fn hex_lower_char(d: nat) -> char {
    if d < 10 { digit_char(d) }
    else if d == 10 { 'a' }
    else if d == 11 { 'b' }
    else if d == 12 { 'c' }
    else if d == 13 { 'd' }
    else if d == 14 { 'e' }
    else { 'f' }
}

pub fn hex_lower_digit(d: u8) -> (c: char)
    requires
        d < 16,
    ensures
        c == hex_lower_char(d as nat),
{
    if d < 10 { digit_of(d as u64) }
    else if d == 10 { 'a' }
    else if d == 11 { 'b' }
    else if d == 12 { 'c' }
    else if d == 13 { 'd' }
    else if d == 14 { 'e' }
    else { 'f' }
}

/// A byte as two lowercase hexadecimal digits (`{:02x}`).
pub open spec fn hex2(b: u8) -> Seq<char> {
    seq![hex_lower_char((b / 16) as nat), hex_lower_char((b % 16) as nat)]
}

/// Appends a byte as two lowercase hexadecimal digits.
pub fn push_hex2(s: &mut String, b: u8)
    ensures
        final(s)@ == old(s)@ + hex2(b),
{
    push_char(s, hex_lower_digit(b / 16));
    push_char(s, hex_lower_digit(b % 16));
    assert(old(s)@.push(hex_lower_char((b / 16) as nat)).push(hex_lower_char((b % 16) as nat)) =~= old(s)@ + hex2(b));
}

/// A lowercase hexadecimal digit.
pub open spec fn is_lower_hex_char(c: char) -> bool {
    ('0' <= c && c <= '9') || ('a' <= c && c <= 'f')
}

pub proof fn lemma_hex_lower_char(d: nat)
    requires
        d < 16,
    ensures
        is_lower_hex_char(hex_lower_char(d)),
        hex_digit_value(hex_lower_char(d)) == Some(d),
{
}

/// Facts on the bytes of an ASCII hex digit.
pub proof fn lemma_hex_byte(c: char)
    requires
        is_lower_hex_char(c),
    ensures
        '\0' <= c <= '\u{7f}',
        c as u8 != 13u8,
        c as u8 != 59u8,
        !is_space(c),
        c != '+',
        c != '#',
        c as u8 != 35u8,
        hex_digit_value(c) is Some,
{
}

/// The two digits of a byte are read back as the byte.
pub proof fn lemma_hex2_value(b: u8)
    ensures
        is_lower_hex_char(hex2(b)[0]),
        is_lower_hex_char(hex2(b)[1]),
        hex2(b).len() == 2,
        parse_hex_usize(hex2(b)) == Some(b as nat),
{
    let h = hex2(b);
    lemma_hex_lower_char((b / 16) as nat);
    lemma_hex_lower_char((b % 16) as nat);
    lemma_hex_byte(h[0]);
    lemma_hex_byte(h[1]);
    assert(radix16_digits(h) == h);
    assert(h.drop_last() =~= seq![h[0]]);
    let one = seq![h[0]];
    assert(one.drop_last() =~= Seq::<char>::empty());
    assert(hex_value(one.drop_last()) == 0);
    assert(one.last() == h[0]);
    assert(hex_digit_value(h[0]) == Some((b / 16) as nat));
    assert(hex_value(one) == hex_value(one.drop_last()) * 16 + (b / 16) as nat);
    assert(hex_value(one) == (b / 16) as nat);
    assert(hex_value(h) == (b / 16) as nat * 16 + (b % 16) as nat);
    assert(all_hex(h));
}

/// The lowercase hexadecimal notation of `n`, without leading zeros (`{:x}`).
pub open spec fn hex_lower(n: nat) -> Seq<char>
    decreases n,
{
    if n < 16 {
        seq![hex_lower_char(n)]
    } else {
        hex_lower(n / 16).push(hex_lower_char(n % 16))
    }
}

/// Appends the lowercase hexadecimal notation of `n`.
pub fn push_hex(s: &mut String, n: usize)
    ensures
        final(s)@ == old(s)@ + hex_lower(n as nat),
    decreases n,
{
    if n >= 16 {
        push_hex(s, n / 16);
        push_char(s, hex_lower_digit((n % 16) as u8));
        assert(old(s)@ + hex_lower(n as nat) == old(s)@ + hex_lower((n / 16) as nat) + seq![
            hex_lower_char((n % 16) as nat),
        ]);
    } else {
        push_char(s, hex_lower_digit(n as u8));
        assert(hex_lower(n as nat) == seq![hex_lower_char(n as nat)]);
    }
}


/// Lines joined with `sep` between them.
pub open spec fn join_with(lines: Seq<Seq<char>>, sep: Seq<char>) -> Seq<char>
    decreases lines.len(),
{
    if lines.len() == 0 {
        Seq::empty()
    } else if lines.len() == 1 {
        lines[0]
    } else {
        join_with(lines.drop_last(), sep) + sep + lines.last()
    }
}

pub open spec fn strings_view(v: Seq<String>) -> Seq<Seq<char>> {
    v.map_values(|s: String| s@)
}

/// Joins lines with `sep` between them.
pub fn join_strings(lines: &Vec<String>, sep: &str) -> (s: String)
    ensures
        s@ == join_with(strings_view(lines@), sep@),
{
    let mut s = String::new();
    let mut i: usize = 0;
    while i < lines.len()
        invariant
            i <= lines.len(),
            s@ == join_with(strings_view(lines@).take(i as int), sep@),
        decreases lines.len() - i,
    {
        let ghost prev = strings_view(lines@).take(i as int);
        if i > 0 {
            push_str(&mut s, sep);
        }
        push_str(&mut s, lines[i].as_str());
        i += 1;
        proof {
            let cur = strings_view(lines@).take(i as int);
            assert(cur.drop_last() =~= prev);
            assert(cur.last() == lines@[i - 1]@);
            if i == 1 {
                assert(prev =~= Seq::<Seq<char>>::empty());
            }
        }
    }
    assert(strings_view(lines@).take(lines.len() as int) =~= strings_view(lines@));
    s
}

/// Groups of lines, one after the other.
pub open spec fn flatten(groups: Seq<Seq<Seq<char>>>) -> Seq<Seq<char>>
    decreases groups.len(),
{
    if groups.len() == 0 {
        Seq::empty()
    } else {
        flatten(groups.drop_last()) + groups.last()
    }
}

/// Appends lines to a list of lines.
pub fn append_lines(lines: &mut Vec<String>, more: Vec<String>)
    ensures
        strings_view(final(lines)@) == strings_view(old(lines)@) + strings_view(more@),
{
    let mut more = more;
    let ghost m = more@;
    lines.append(&mut more);
    assert(strings_view(lines@) =~= strings_view(old(lines)@) + strings_view(m));
}

/// Appends a line to a list of lines.
pub fn push_line(lines: &mut Vec<String>, line: String)
    ensures
        strings_view(final(lines)@) == strings_view(old(lines)@).push(line@),
{
    lines.push(line);
    assert(strings_view(lines@) =~= strings_view(old(lines)@).push(line@));
}

} // verus!

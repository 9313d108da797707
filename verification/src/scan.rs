use vstd::prelude::*;

verus! {

/// A carriage return followed by a line feed starts at index `i`.
pub open spec fn crlf_at(s: Seq<u8>, i: int) -> bool {
    0 <= i && i + 1 < s.len() && s[i] == 13u8 && s[i + 1] == 10u8
}

/// The first index at or after `from` where a CRLF pair starts.
pub open spec fn find_crlf(s: Seq<u8>, from: int) -> Option<int>
    decreases s.len() - from,
{
    if from < 0 || from + 1 >= s.len() {
        None
    } else if crlf_at(s, from) {
        Some(from)
    } else {
        find_crlf(s, from + 1)
    }
}

/// The first index at or after `from` that holds byte `b`.
pub open spec fn find_byte(s: Seq<u8>, b: u8, from: int) -> Option<int>
    decreases s.len() - from,
{
    if from < 0 || from >= s.len() {
        None
    } else if s[from] == b {
        Some(from)
    } else {
        find_byte(s, b, from + 1)
    }
}

pub proof fn lemma_find_crlf_bounds(s: Seq<u8>, from: int)
    ensures
        find_crlf(s, from) matches Some(i) ==> from <= i && crlf_at(s, i)
            && forall|j: int| from <= j < i ==> !crlf_at(s, j),
        find_crlf(s, from) is None ==> forall|j: int| 0 <= from <= j ==> !crlf_at(s, j),
    decreases s.len() - from,
{
    if from < 0 || from + 1 >= s.len() {
    } else if crlf_at(s, from) {
    } else {
        lemma_find_crlf_bounds(s, from + 1);
    }
}

pub proof fn lemma_find_byte_bounds(s: Seq<u8>, b: u8, from: int)
    ensures
        find_byte(s, b, from) matches Some(i) ==> from <= i < s.len() && s[i] == b
            && forall|j: int| from <= j < i ==> s[j] != b,
        find_byte(s, b, from) is None ==> forall|j: int| 0 <= from <= j < s.len() ==> s[j] != b,
    decreases s.len() - from,
{
    if from < 0 || from >= s.len() {
    } else if s[from] == b {
    } else {
        lemma_find_byte_bounds(s, b, from + 1);
    }
}

/// Finds the first CRLF at or after `from`.
pub fn find_crlf_from(buf: &[u8], from: usize) -> (r: Option<usize>)
    ensures
        r == (match find_crlf(buf@, from as int) {
            Some(i) => Some(i as usize),
            None => None::<usize>,
        }),
{
    if from >= buf.len() {
        return None;
    }
    let mut i = from;
    while i < buf.len() - 1
        invariant
            from <= i,
            buf.len() >= 1,
            find_crlf(buf@, from as int) == find_crlf(buf@, i as int),
        decreases buf.len() - i,
    {
        if buf[i] == 13u8 && buf[i + 1] == 10u8 {
            return Some(i);
        }
        i += 1;
    }
    None
}

/// Finds the first occurrence of byte `b` at or after `from`.
pub fn find_byte_from(buf: &[u8], b: u8, from: usize) -> (r: Option<usize>)
    ensures
        r == (match find_byte(buf@, b, from as int) {
            Some(i) => Some(i as usize),
            None => None::<usize>,
        }),
{
    let mut i = from;
    while i < buf.len()
        invariant
            from <= i,
            find_byte(buf@, b, from as int) == find_byte(buf@, b, i as int),
        decreases buf.len() - i,
    {
        if buf[i] == b {
            return Some(i);
        }
        i += 1;
    }
    None
}

/// Copies `buf[from..to]` into a new vector.
pub fn copy_range(buf: &[u8], from: usize, to: usize) -> (v: Vec<u8>)
    requires
        from <= to <= buf.len(),
    ensures
        v@ == buf@.subrange(from as int, to as int),
{
    let mut v: Vec<u8> = Vec::new();
    let mut i = from;
    while i < to
        invariant
            from <= i <= to <= buf.len(),
            v@ == buf@.subrange(from as int, i as int),
        decreases to - i,
    {
        v.push(buf[i]);
        i += 1;
    }
    v
}

/// Appends `buf[from..to]` to `out`.
pub fn extend_from_range(out: &mut Vec<u8>, buf: &[u8], from: usize, to: usize)
    requires
        from <= to <= buf.len(),
    ensures
        final(out)@ == old(out)@ + buf@.subrange(from as int, to as int),
{
    let mut i = from;
    while i < to
        invariant
            from <= i <= to <= buf.len(),
            out@ == old(out)@ + buf@.subrange(from as int, i as int),
        decreases to - i,
    {
        out.push(buf[i]);
        i += 1;
        assert(buf@.subrange(from as int, i as int) == buf@.subrange(from as int, i - 1).push(buf@[i - 1]));
    }
}


/// Searching the suffix from `pos` finds the same CRLF, shifted by `pos`.
pub proof fn lemma_find_crlf_shift(s: Seq<u8>, pos: int)
    requires
        0 <= pos <= s.len(),
    ensures
        find_crlf(s.subrange(pos, s.len() as int), 0) == (match find_crlf(s, pos) {
            Some(e) => Some(e - pos),
            None => None::<int>,
        }),
{
    lemma_find_crlf_shift_from(s, pos, 0);
}

pub proof fn lemma_find_crlf_shift_from(s: Seq<u8>, pos: int, k: int)
    requires
        0 <= pos <= s.len(),
        0 <= k,
    ensures
        find_crlf(s.subrange(pos, s.len() as int), k) == (match find_crlf(s, pos + k) {
            Some(e) => Some(e - pos),
            None => None::<int>,
        }),
    decreases s.len() - pos - k,
{
    let t = s.subrange(pos, s.len() as int);
    if k + 1 >= t.len() {
    } else {
        assert(t[k] == s[pos + k] && t[k + 1] == s[pos + k + 1]);
        if crlf_at(t, k) {
        } else {
            lemma_find_crlf_shift_from(s, pos, k + 1);
        }
    }
}

/// The first CRLF at or after `p` is the one at `e` when no CR comes
/// between them.
pub proof fn lemma_find_crlf_first(buf: Seq<u8>, p: int, e: int)
    requires
        0 <= p <= e,
        crlf_at(buf, e),
        forall|j: int| p <= j < e ==> buf[j] != 13u8,
    ensures
        find_crlf(buf, p) == Some(e),
    decreases e - p,
{
    if p < e {
        lemma_find_crlf_first(buf, p + 1, e);
    }
}

} // verus!

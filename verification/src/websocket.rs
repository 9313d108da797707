//! WebSocket protocol support (RFC 6455): the `Sec-WebSocket-Accept`
//! handshake value, with SHA-1 and base64 written out here, and the frame
//! codec (unmasking of client frames, encoding of server frames).
use vstd::prelude::*;
use vstd::utf8::*;
use crate::bits::{be32_bytes, push_be64, rotate_left, rotl};
use crate::digest::{be_block_words, be_padded, block_words_be, padded_prefix};
use crate::text::{chars_of, from_utf8, is_space, push_char, push_str, string_from_chars, trim, trim_end, trim_start, trimmed};

verus! {

// =============================================================================
// SHA-1 (RFC 3174)
// =============================================================================

/// The first `n` words of the SHA-1 message schedule of a block.
pub open spec fn sha1_schedule(w16: Seq<u32>, n: nat) -> Seq<u32>
    decreases n,
{
    if n <= 16 {
        w16.take(n as int)
    } else {
        let s = sha1_schedule(w16, (n - 1) as nat);
        s.push(rotl(s[n - 4] ^ s[n - 9] ^ s[n - 15] ^ s[n - 17], 1))
    }
}

/// The round function and constant of SHA-1 round `i`.
pub open spec fn sha1_fk(i: int, b: u32, c: u32, d: u32) -> (u32, u32) {
    if i < 20 {
        ((b & c) | (!b & d), 0x5A827999u32)
    } else if i < 40 {
        (b ^ c ^ d, 0x6ED9EBA1u32)
    } else if i < 60 {
        ((b & c) | (b & d) | (c & d), 0x8F1BBCDCu32)
    } else {
        (b ^ c ^ d, 0xCA62C1D6u32)
    }
}

pub open spec fn sha1_step(st: (u32, u32, u32, u32, u32), w: Seq<u32>, i: int) -> (u32, u32, u32, u32, u32) {
    let (a, b, c, d, e) = st;
    let (f, k) = sha1_fk(i, b, c, d);
    let temp = rotl(a, 5).wrapping_add(f).wrapping_add(e).wrapping_add(k).wrapping_add(w[i]);
    (temp, a, rotl(b, 30), c, d)
}

pub open spec fn sha1_rounds(st: (u32, u32, u32, u32, u32), w: Seq<u32>, n: nat) -> (u32, u32, u32, u32, u32)
    decreases n,
{
    if n == 0 {
        st
    } else {
        sha1_step(sha1_rounds(st, w, (n - 1) as nat), w, n - 1)
    }
}

pub open spec fn sha1_compress(st: (u32, u32, u32, u32, u32), w16: Seq<u32>) -> (u32, u32, u32, u32, u32) {
    let r = sha1_rounds(st, sha1_schedule(w16, 80), 80);
    (st.0.wrapping_add(r.0), st.1.wrapping_add(r.1), st.2.wrapping_add(r.2), st.3.wrapping_add(r.3), st.4.wrapping_add(r.4))
}

pub open spec fn sha1_init() -> (u32, u32, u32, u32, u32) {
    (0x67452301u32, 0xEFCDAB89u32, 0x98BADCFEu32, 0x10325476u32, 0xC3D2E1F0u32)
}

pub open spec fn sha1_chain(p: Seq<u8>, n: nat) -> (u32, u32, u32, u32, u32)
    decreases n,
{
    if n == 0 {
        sha1_init()
    } else {
        sha1_compress(sha1_chain(p, (n - 1) as nat), be_block_words(p, n - 1))
    }
}

/// The SHA-1 digest of `data`.
pub open spec fn sha1_digest(data: Seq<u8>) -> Seq<u8> {
    let p = be_padded(data);
    let st = sha1_chain(p, p.len() / 64);
    be32_bytes(st.0) + be32_bytes(st.1) + be32_bytes(st.2) + be32_bytes(st.3) + be32_bytes(st.4)
}

fn sha1_expand(w16: Vec<u32>) -> (w: Vec<u32>)
    requires
        w16@.len() == 16,
    ensures
        w@ == sha1_schedule(w16@, 80),
        w@.len() == 80,
{
    let ghost b = w16@;
    let mut w = w16;
    assert(w@ =~= sha1_schedule(b, 16));
    let mut i: usize = 16;
    while i < 80
        invariant
            16 <= i <= 80,
            w@ == sha1_schedule(b, i as nat),
            w@.len() == i,
        decreases 80 - i,
    {
        let next = rotate_left(w[i - 3] ^ w[i - 8] ^ w[i - 14] ^ w[i - 16], 1);
        w.push(next);
        i += 1;
    }
    w
}

/// The SHA-1 digest of `data`.
pub fn sha1(data: &[u8]) -> (out: [u8; 20])
    ensures
        out@ == sha1_digest(data@),
{
    let n = data.len();
    let mut msg = padded_prefix(data);
    push_be64(&mut msg, (n as u64).wrapping_mul(8));
    assert(msg@ == be_padded(data@));
    let mut h0: u32 = 0x67452301;
    let mut h1: u32 = 0xEFCDAB89;
    let mut h2: u32 = 0x98BADCFE;
    let mut h3: u32 = 0x10325476;
    let mut h4: u32 = 0xC3D2E1F0;
    let len = msg.len();
    let nblocks = len / 64;
    let mut blk: usize = 0;
    while blk < nblocks
        invariant
            blk <= nblocks,
            nblocks == msg@.len() / 64,
            len == msg@.len(),
            (h0, h1, h2, h3, h4) == sha1_chain(msg@, blk as nat),
        decreases nblocks - blk,
    {
        let w = sha1_expand(block_words_be(msg.as_slice(), blk));
        let mut a = h0;
        let mut b = h1;
        let mut c = h2;
        let mut d = h3;
        let mut e = h4;
        let mut i: usize = 0;
        while i < 80
            invariant
                i <= 80,
                w@.len() == 80,
                (a, b, c, d, e) == sha1_rounds((h0, h1, h2, h3, h4), w@, i as nat),
            decreases 80 - i,
        {
            let (f, k) = if i < 20 {
                ((b & c) | (!b & d), 0x5A827999u32)
            } else if i < 40 {
                (b ^ c ^ d, 0x6ED9EBA1u32)
            } else if i < 60 {
                ((b & c) | (b & d) | (c & d), 0x8F1BBCDCu32)
            } else {
                (b ^ c ^ d, 0xCA62C1D6u32)
            };
            let temp = rotate_left(a, 5).wrapping_add(f).wrapping_add(e).wrapping_add(k).wrapping_add(w[i]);
            e = d;
            d = c;
            c = rotate_left(b, 30);
            b = a;
            a = temp;
            i += 1;
        }
        h0 = h0.wrapping_add(a);
        h1 = h1.wrapping_add(b);
        h2 = h2.wrapping_add(c);
        h3 = h3.wrapping_add(d);
        h4 = h4.wrapping_add(e);
        blk += 1;
    }
    let out: [u8; 20] = [
        ((h0 >> 24) & 0xff) as u8, ((h0 >> 16) & 0xff) as u8, ((h0 >> 8) & 0xff) as u8, (h0 & 0xff) as u8,
        ((h1 >> 24) & 0xff) as u8, ((h1 >> 16) & 0xff) as u8, ((h1 >> 8) & 0xff) as u8, (h1 & 0xff) as u8,
        ((h2 >> 24) & 0xff) as u8, ((h2 >> 16) & 0xff) as u8, ((h2 >> 8) & 0xff) as u8, (h2 & 0xff) as u8,
        ((h3 >> 24) & 0xff) as u8, ((h3 >> 16) & 0xff) as u8, ((h3 >> 8) & 0xff) as u8, (h3 & 0xff) as u8,
        ((h4 >> 24) & 0xff) as u8, ((h4 >> 16) & 0xff) as u8, ((h4 >> 8) & 0xff) as u8, (h4 & 0xff) as u8,
    ];
    assert(out@ =~= sha1_digest(data@));
    out
}

// =============================================================================
// Base64 (RFC 4648)
// =============================================================================

/// The base64 digit of a six-bit value.
pub open spec fn b64_char(v: u32) -> u8 {
    if v < 26 {
        (65 + v) as u8
    } else if v < 52 {
        (97 + v - 26) as u8
    } else if v < 62 {
        (48 + v - 52) as u8
    } else if v == 62 {
        43u8
    } else {
        47u8
    }
}

/// The value of a base64 digit.
pub open spec fn b64_val(c: u8) -> Option<u32> {
    if 65 <= c <= 90 {
        Some((c - 65) as u32)
    } else if 97 <= c <= 122 {
        Some((c - 97 + 26) as u32)
    } else if 48 <= c <= 57 {
        Some((c - 48 + 52) as u32)
    } else if c == 43 {
        Some(62u32)
    } else if c == 47 {
        Some(63u32)
    } else {
        None
    }
}

fn encode_digit(v: u32) -> (c: u8)
    requires
        v < 64,
    ensures
        c == b64_char(v),
{
    if v < 26 {
        (65 + v) as u8
    } else if v < 52 {
        (97 + v - 26) as u8
    } else if v < 62 {
        (48 + v - 52) as u8
    } else if v == 62 {
        43u8
    } else {
        47u8
    }
}

fn decode_digit(c: u8) -> (r: Option<u32>)
    ensures
        r == b64_val(c),
{
    if 65 <= c && c <= 90 {
        Some((c - 65) as u32)
    } else if 97 <= c && c <= 122 {
        Some((c - 97 + 26) as u32)
    } else if 48 <= c && c <= 57 {
        Some((c - 48 + 52) as u32)
    } else if c == 43 {
        Some(62u32)
    } else if c == 47 {
        Some(63u32)
    } else {
        None
    }
}

/// The four digits of the 24-bit group `n`.
pub open spec fn b64_quad(n: u32) -> Seq<u8> {
    seq![
        b64_char((n >> 18u32) & 0x3fu32),
        b64_char((n >> 12u32) & 0x3fu32),
        b64_char((n >> 6u32) & 0x3fu32),
        b64_char(n & 0x3fu32),
    ]
}

pub open spec fn group3(x: u8, y: u8, z: u8) -> u32 {
    ((x as u32) << 16u32) | ((y as u32) << 8u32) | (z as u32)
}

/// Base64 with padding.
pub open spec fn b64_encode(d: Seq<u8>) -> Seq<u8>
    decreases d.len(),
{
    if d.len() >= 3 {
        b64_quad(group3(d[0], d[1], d[2])) + b64_encode(d.skip(3))
    } else if d.len() == 2 {
        b64_quad(group3(d[0], d[1], 0)).take(3).push(61u8)
    } else if d.len() == 1 {
        b64_quad(group3(d[0], 0, 0)).take(2).push(61u8).push(61u8)
    } else {
        Seq::empty()
    }
}

fn push_digits(out: &mut Vec<u8>, n: u32, k: usize)
    requires
        k <= 4,
    ensures
        final(out)@ == old(out)@ + b64_quad(n).take(k as int),
{
    let v0 = (n >> 18) & 0x3f;
    let v1 = (n >> 12) & 0x3f;
    let v2 = (n >> 6) & 0x3f;
    let v3 = n & 0x3f;
    assert(v0 < 64 && v1 < 64 && v2 < 64 && v3 < 64) by (bit_vector)
        requires
            v0 == (n >> 18u32) & 0x3fu32,
            v1 == (n >> 12u32) & 0x3fu32,
            v2 == (n >> 6u32) & 0x3fu32,
            v3 == n & 0x3fu32;
    let q: [u8; 4] = [encode_digit(v0), encode_digit(v1), encode_digit(v2), encode_digit(v3)];
    assert(q@ =~= b64_quad(n));
    let ghost start = out@;
    let mut j: usize = 0;
    while j < k
        invariant
            j <= k <= 4,
            q@ == b64_quad(n),
            out@ == start + b64_quad(n).take(j as int),
        decreases k - j,
    {
        out.push(q[j]);
        j += 1;
        assert(out@ =~= start + b64_quad(n).take(j as int));
    }
}

/// Bytes read one character each.
pub open spec fn ascii_text(b: Seq<u8>) -> Seq<char> {
    b.map_values(|x: u8| x as char)
}

fn bytes_to_string(b: &Vec<u8>) -> (s: String)
    ensures
        s@ == ascii_text(b@),
{
    let mut s = String::new();
    let mut i: usize = 0;
    while i < b.len()
        invariant
            i <= b@.len(),
            s@ == ascii_text(b@.take(i as int)),
        decreases b@.len() - i,
    {
        push_char(&mut s, b[i] as char);
        i += 1;
        assert(s@ =~= ascii_text(b@.take(i as int)));
    }
    assert(b@.take(b@.len() as int) =~= b@);
    s
}

/// Base64 with padding, as text.
pub fn base64_encode(data: &[u8]) -> (s: String)
    ensures
        s@ == ascii_text(b64_encode(data@)),
{
    let mut out: Vec<u8> = Vec::new();
    let len = data.len();
    let mut i: usize = 0;
    assert(data@.skip(0) =~= data@);
    while len - i >= 3
        invariant
            i <= len == data@.len(),
            b64_encode(data@) == out@ + b64_encode(data@.skip(i as int)),
        decreases len - i,
    {
        let ghost rest = data@.skip(i as int);
        let n = ((data[i] as u32) << 16) | ((data[i + 1] as u32) << 8) | (data[i + 2] as u32);
        push_digits(&mut out, n, 4);
        assert(b64_quad(n).take(4) =~= b64_quad(n));
        assert(rest.skip(3) =~= data@.skip(i + 3));
        i += 3;
    }
    let ghost rest = data@.skip(i as int);
    let rem = len - i;
    if rem == 1 {
        let x = data[i];
        let n = (x as u32) << 16;
        assert(n == ((x as u32) << 16u32) | ((0u8 as u32) << 8u32) | (0u8 as u32)) by (bit_vector)
            requires
                n == (x as u32) << 16u32;
        push_digits(&mut out, n, 2);
        out.push(61u8);
        out.push(61u8);
    } else if rem == 2 {
        let x = data[i];
        let y = data[i + 1];
        let n = ((x as u32) << 16) | ((y as u32) << 8);
        assert(n == ((x as u32) << 16u32) | ((y as u32) << 8u32) | (0u8 as u32)) by (bit_vector)
            requires
                n == ((x as u32) << 16u32) | ((y as u32) << 8u32);
        push_digits(&mut out, n, 3);
        out.push(61u8);
    }
    assert(b64_encode(data@) =~= out@);
    bytes_to_string(&out)
}

/// The bytes of one group of four base64 characters: `=` in the third or
/// fourth place stands for the value 64 and drops the byte it would end.
pub open spec fn quad_bytes(a: u32, b: u32, cv: u32, dv: u32, c_pad: bool, d_pad: bool) -> Seq<u8> {
    let n = (a << 18u32) | (b << 12u32) | (cv << 6u32) | dv;
    let first = seq![((n >> 16u32) & 0xffu32) as u8];
    let second = if c_pad { Seq::empty() } else { seq![((n >> 8u32) & 0xffu32) as u8] };
    let third = if d_pad { Seq::empty() } else { seq![(n & 0xffu32) as u8] };
    first + second + third
}

/// The value of a third or fourth character: `=` counts as 64.
pub open spec fn b64_val_or_pad(c: u8) -> Option<u32> {
    if c == 61u8 {
        Some(64u32)
    } else {
        b64_val(c)
    }
}

/// Decodes groups of four base64 characters.
pub open spec fn b64_quads(b: Seq<u8>) -> Option<Seq<u8>>
    decreases b.len(),
{
    if b.len() < 4 {
        Some(Seq::empty())
    } else {
        match (b64_val(b[0]), b64_val(b[1]), b64_val_or_pad(b[2]), b64_val_or_pad(b[3])) {
            (Some(a), Some(bv), Some(cv), Some(dv)) => match b64_quads(b.skip(4)) {
                Some(rest) => Some(quad_bytes(a, bv, cv, dv, b[2] == 61u8, b[3] == 61u8) + rest),
                None => None,
            },
            _ => None,
        }
    }
}

/// What decoding the text `s` gives: it is trimmed, and its length in bytes
/// must be a multiple of four.
pub open spec fn base64_decode_text(s: Seq<char>) -> Option<Seq<u8>> {
    let b = encode_utf8(trim(s));
    if b.len() % 4 != 0 {
        None
    } else {
        b64_quads(b)
    }
}

pub open spec fn opt_bytes_view(o: Option<Vec<u8>>) -> Option<Seq<u8>> {
    match o {
        Some(v) => Some(v@),
        None => None,
    }
}

/// Decodes base64 text; `None` when it is not valid base64.
pub fn base64_decode(s: &str) -> (r: Option<Vec<u8>>)
    ensures
        opt_bytes_view(r) == base64_decode_text(s@),
{
    let cs = chars_of(s);
    let t = trimmed(cs.as_slice());
    let text = string_from_chars(t.as_slice());
    let bytes = text.as_str().as_bytes();
    let len = bytes.len();
    if len % 4 != 0 {
        return None;
    }
    let mut out: Vec<u8> = Vec::new();
    let mut i: usize = 0;
    assert(bytes@.skip(0) =~= bytes@);
    while i < len
        invariant
            i <= len == bytes@.len(),
            len % 4 == 0,
            i % 4 == 0,
            bytes@ == encode_utf8(trim(s@)),
            b64_quads(bytes@) == (match b64_quads(bytes@.skip(i as int)) {
                Some(rest) => Some(out@ + rest),
                None => None,
            }),
        decreases len - i,
    {
        let ghost rest = bytes@.skip(i as int);
        assert(rest[0] == bytes@[i as int] && rest[1] == bytes@[i + 1] && rest[2] == bytes@[i + 2] && rest[3] == bytes@[i + 3]);
        assert(rest.skip(4) =~= bytes@.skip(i + 4));
        let a = match decode_digit(bytes[i]) {
            Some(v) => v,
            None => {
                return None;
            },
        };
        let b = match decode_digit(bytes[i + 1]) {
            Some(v) => v,
            None => {
                return None;
            },
        };
        let c = bytes[i + 2];
        let d = bytes[i + 3];
        let c_val = if c == 61u8 {
            64u32
        } else {
            match decode_digit(c) {
                Some(v) => v,
                None => {
                    return None;
                },
            }
        };
        let d_val = if d == 61u8 {
            64u32
        } else {
            match decode_digit(d) {
                Some(v) => v,
                None => {
                    return None;
                },
            }
        };
        let n = (a << 18) | (b << 12) | (c_val << 6) | d_val;
        let ghost before = out@;
        out.push(((n >> 16) & 0xff) as u8);
        if c != 61u8 {
            out.push(((n >> 8) & 0xff) as u8);
        }
        if d != 61u8 {
            out.push((n & 0xff) as u8);
        }
        assert(out@ =~= before + quad_bytes(a, b, c_val, d_val, c == 61u8, d == 61u8));
        i += 4;
    }
    assert(bytes@.skip(len as int) =~= Seq::<u8>::empty());
    Some(out)
}


// =============================================================================
// Decoding undoes encoding
// =============================================================================

proof fn lemma_digit(v: u32)
    requires
        v < 64,
    ensures
        b64_val(b64_char(v)) == Some(v),
        b64_char(v) != 61u8,
        b64_char(v) < 128,
{
}

proof fn lemma_group3_bits(x: u8, y: u8, z: u8)
    by (bit_vector)
    ensures
        (((((((x as u32) << 16u32) | ((y as u32) << 8u32) | (z as u32)) >> 18u32) & 0x3fu32) << 18u32)
            | (((((x as u32) << 16u32) | ((y as u32) << 8u32) | (z as u32)) >> 12u32) & 0x3fu32) << 12u32
            | (((((x as u32) << 16u32) | ((y as u32) << 8u32) | (z as u32)) >> 6u32) & 0x3fu32) << 6u32
            | ((((x as u32) << 16u32) | ((y as u32) << 8u32) | (z as u32)) & 0x3fu32))
            == ((x as u32) << 16u32) | ((y as u32) << 8u32) | (z as u32),
        (((((x as u32) << 16u32) | ((y as u32) << 8u32) | (z as u32)) >> 16u32) & 0xffu32) as u8 == x,
        (((((x as u32) << 16u32) | ((y as u32) << 8u32) | (z as u32)) >> 8u32) & 0xffu32) as u8 == y,
        ((((x as u32) << 16u32) | ((y as u32) << 8u32) | (z as u32)) & 0xffu32) as u8 == z,
        (((((x as u32) << 16u32) | ((y as u32) << 8u32) | (z as u32)) >> 18u32) & 0x3fu32) < 64,
        (((((x as u32) << 16u32) | ((y as u32) << 8u32) | (z as u32)) >> 12u32) & 0x3fu32) < 64,
        (((((x as u32) << 16u32) | ((y as u32) << 8u32) | (z as u32)) >> 6u32) & 0x3fu32) < 64,
        ((((x as u32) << 16u32) | ((y as u32) << 8u32) | (z as u32)) & 0x3fu32) < 64,
{
}

proof fn lemma_pad_bits(n: u32)
    by (bit_vector)
    ensures
        ((((((n >> 18u32) & 0x3fu32) << 18u32) | (((n >> 12u32) & 0x3fu32) << 12u32) | (((n >> 6u32) & 0x3fu32) << 6u32) | 64u32) >> 16u32) & 0xffu32)
            == (n >> 16u32) & 0xffu32,
        ((((((n >> 18u32) & 0x3fu32) << 18u32) | (((n >> 12u32) & 0x3fu32) << 12u32) | (((n >> 6u32) & 0x3fu32) << 6u32) | 64u32) >> 8u32) & 0xffu32)
            == (n >> 8u32) & 0xffu32,
        ((((((n >> 18u32) & 0x3fu32) << 18u32) | (((n >> 12u32) & 0x3fu32) << 12u32) | (64u32 << 6u32) | 64u32) >> 16u32) & 0xffu32)
            == (n >> 16u32) & 0xffu32,
{
}

/// A character of base64 output: a digit or `=`.
pub open spec fn b64_out_char(c: u8) -> bool {
    b64_val(c) is Some || c == 61u8
}

proof fn lemma_encode_alphabet(d: Seq<u8>)
    ensures
        b64_encode(d).len() % 4 == 0,
        forall|i: int| 0 <= i < b64_encode(d).len() ==> #[trigger] b64_out_char(b64_encode(d)[i]),
    decreases d.len(),
{
    if d.len() >= 3 {
        lemma_encode_alphabet(d.skip(3));
        let n = group3(d[0], d[1], d[2]);
        lemma_group3_bits(d[0], d[1], d[2]);
        lemma_digit((n >> 18u32) & 0x3fu32);
        lemma_digit((n >> 12u32) & 0x3fu32);
        lemma_digit((n >> 6u32) & 0x3fu32);
        lemma_digit(n & 0x3fu32);
        let e = b64_encode(d);
        assert forall|i: int| 0 <= i < e.len() implies #[trigger] b64_out_char(e[i]) by {
            if i >= 4 {
                assert(e[i] == b64_encode(d.skip(3))[i - 4]);
            }
        }
    } else if d.len() == 2 {
        let n = group3(d[0], d[1], 0);
        lemma_group3_bits(d[0], d[1], 0);
        lemma_digit((n >> 18u32) & 0x3fu32);
        lemma_digit((n >> 12u32) & 0x3fu32);
        lemma_digit((n >> 6u32) & 0x3fu32);
    } else if d.len() == 1 {
        let n = group3(d[0], 0, 0);
        lemma_group3_bits(d[0], 0, 0);
        lemma_digit((n >> 18u32) & 0x3fu32);
        lemma_digit((n >> 12u32) & 0x3fu32);
    }
}

proof fn lemma_decode_encode_bytes(d: Seq<u8>)
    ensures
        b64_quads(b64_encode(d)) == Some(d),
    decreases d.len(),
{
    let e = b64_encode(d);
    if d.len() >= 3 {
        lemma_decode_encode_bytes(d.skip(3));
        let n = group3(d[0], d[1], d[2]);
        let (a, b, c, z) = ((n >> 18u32) & 0x3fu32, (n >> 12u32) & 0x3fu32, (n >> 6u32) & 0x3fu32, n & 0x3fu32);
        lemma_group3_bits(d[0], d[1], d[2]);
        lemma_digit(a);
        lemma_digit(b);
        lemma_digit(c);
        lemma_digit(z);
        assert(e[0] == b64_char(a) && e[1] == b64_char(b) && e[2] == b64_char(c) && e[3] == b64_char(z));
        assert(e.skip(4) =~= b64_encode(d.skip(3)));
        assert(quad_bytes(a, b, c, z, false, false) =~= seq![d[0], d[1], d[2]]);
        assert(seq![d[0], d[1], d[2]] + d.skip(3) =~= d);
        assert(b64_quads(e) == Some(quad_bytes(a, b, c, z, false, false) + d.skip(3)));
        assert(b64_quads(e) == Some(d));
    } else if d.len() == 2 {
        let n = group3(d[0], d[1], 0);
        let (a, b, c) = ((n >> 18u32) & 0x3fu32, (n >> 12u32) & 0x3fu32, (n >> 6u32) & 0x3fu32);
        lemma_group3_bits(d[0], d[1], 0);
        lemma_pad_bits(n);
        lemma_digit(a);
        lemma_digit(b);
        lemma_digit(c);
        assert(e[0] == b64_char(a) && e[1] == b64_char(b) && e[2] == b64_char(c) && e[3] == 61u8);
        assert(e.skip(4) =~= Seq::<u8>::empty());
        assert(quad_bytes(a, b, c, 64, false, true) =~= seq![d[0], d[1]]);
        assert(b64_quads(e.skip(4)) == Some(Seq::<u8>::empty()));
        assert(quad_bytes(a, b, c, 64, false, true) + Seq::<u8>::empty() =~= d);
        assert(seq![d[0], d[1]] =~= d);
        assert(b64_quads(e) == Some(d));
    } else if d.len() == 1 {
        let n = group3(d[0], 0, 0);
        let (a, b) = ((n >> 18u32) & 0x3fu32, (n >> 12u32) & 0x3fu32);
        lemma_group3_bits(d[0], 0, 0);
        lemma_pad_bits(n);
        lemma_digit(a);
        lemma_digit(b);
        assert(e[0] == b64_char(a) && e[1] == b64_char(b) && e[2] == 61u8 && e[3] == 61u8);
        assert(e.skip(4) =~= Seq::<u8>::empty());
        assert(quad_bytes(a, b, 64, 64, true, true) =~= seq![d[0]]);
        assert(b64_quads(e.skip(4)) == Some(Seq::<u8>::empty()));
        assert(quad_bytes(a, b, 64, 64, true, true) + Seq::<u8>::empty() =~= d);
        assert(seq![d[0]] =~= d);
        assert(b64_quads(e) == Some(d));
    } else {
        assert(d =~= Seq::<u8>::empty());
    }
}

/// Decoding the text that `base64_encode` produces gives the bytes back.
pub proof fn lemma_base64_roundtrip(d: Seq<u8>)
    ensures
        base64_decode_text(ascii_text(b64_encode(d))) == Some(d),
{
    let e = b64_encode(d);
    let t = ascii_text(e);
    lemma_encode_alphabet(d);
    lemma_decode_encode_bytes(d);
    assert forall|i: int| 0 <= i < t.len() implies '\0' <= #[trigger] t[i] <= '\u{7f}' && !is_space(t[i]) by {
        assert(b64_out_char(e[i]));
        if e[i] != 61u8 {
            assert(b64_val(e[i]) is Some);
        }
    }
    assert(trim_start(t) == t);
    assert(trim_end(t) == t);
    assert(is_ascii_chars(t));
    is_ascii_chars_encode_utf8(t);
    assert(encode_utf8(t) =~= e);
}


// =============================================================================
// Handshake
// =============================================================================

/// The GUID used for computing `Sec-WebSocket-Accept`.
pub const WS_GUID: &'static str = "258EAFA5-E914-47DA-95CA-C5AB0DC85B11";

/// Why a handshake key was refused.
#[derive(Debug, Clone, PartialEq, Eq)]
pub enum WebSocketHandshakeError {
    /// Missing required header.
    MissingHeader(&'static str),
    /// Invalid base64 in `Sec-WebSocket-Key`.
    InvalidKeyBase64,
    /// Invalid key length (decoded bytes must be 16).
    InvalidKeyLength { decoded_len: usize },
}

pub enum HandshakeErrorView {
    MissingHeader(Seq<char>),
    InvalidKeyBase64,
    InvalidKeyLength { decoded_len: usize },
}

impl View for WebSocketHandshakeError {
    type V = HandshakeErrorView;

    open spec fn view(&self) -> HandshakeErrorView {
        match self {
            WebSocketHandshakeError::MissingHeader(h) => HandshakeErrorView::MissingHeader(h@),
            WebSocketHandshakeError::InvalidKeyBase64 => HandshakeErrorView::InvalidKeyBase64,
            WebSocketHandshakeError::InvalidKeyLength { decoded_len } => HandshakeErrorView::InvalidKeyLength {
                decoded_len: *decoded_len,
            },
        }
    }
}

pub open spec fn handshake_error_message(e: HandshakeErrorView) -> Seq<char> {
    match e {
        HandshakeErrorView::MissingHeader(h) => "missing required websocket header: "@ + h,
        HandshakeErrorView::InvalidKeyBase64 => "invalid Sec-WebSocket-Key (base64 decode failed)"@,
        HandshakeErrorView::InvalidKeyLength { decoded_len } => "invalid Sec-WebSocket-Key (decoded length "@
            + crate::text::decimal(decoded_len as nat) + ", expected 16)"@,
    }
}

impl WebSocketHandshakeError {
    /// The error's message.
    pub fn to_string(&self) -> (s: String)
        ensures
            s@ == handshake_error_message(self@),
    {
        match self {
            WebSocketHandshakeError::MissingHeader(h) => {
                let mut s = String::from_str("missing required websocket header: ");
                push_str(&mut s, h);
                s
            },
            WebSocketHandshakeError::InvalidKeyBase64 => String::from_str(
                "invalid Sec-WebSocket-Key (base64 decode failed)",
            ),
            WebSocketHandshakeError::InvalidKeyLength { decoded_len } => {
                let mut s = String::from_str("invalid Sec-WebSocket-Key (decoded length ");
                crate::text::push_decimal(&mut s, *decoded_len as u64);
                push_str(&mut s, ", expected 16)");
                s
            },
        }
    }
}

/// The `Sec-WebSocket-Accept` value for a `Sec-WebSocket-Key`: the key is
/// trimmed, must be base64 of sixteen bytes, and the answer is the base64 of
/// the SHA-1 of the key followed by the GUID.
pub open spec fn accept_for_key(key: Seq<char>) -> Result<Seq<char>, HandshakeErrorView> {
    let k = trim(key);
    if k.len() == 0 {
        Err(HandshakeErrorView::MissingHeader("sec-websocket-key"@))
    } else {
        match base64_decode_text(k) {
            None => Err(HandshakeErrorView::InvalidKeyBase64),
            Some(decoded) => if decoded.len() != 16 {
                Err(HandshakeErrorView::InvalidKeyLength { decoded_len: decoded.len() as usize })
            } else {
                Ok(ascii_text(b64_encode(sha1_digest(encode_utf8(k) + encode_utf8(WS_GUID@)))))
            },
        }
    }
}

pub open spec fn accept_view(r: Result<String, WebSocketHandshakeError>) -> Result<Seq<char>, HandshakeErrorView> {
    match r {
        Ok(s) => Ok(s@),
        Err(e) => Err(e@),
    }
}

/// Computes `Sec-WebSocket-Accept` from `Sec-WebSocket-Key` (RFC 6455),
/// checking that the key is base64 of sixteen bytes.
pub fn websocket_accept_from_key(key: &str) -> (r: Result<String, WebSocketHandshakeError>)
    ensures
        accept_view(r) == accept_for_key(key@),
{
    let cs = chars_of(key);
    let t = trimmed(cs.as_slice());
    if t.len() == 0 {
        return Err(WebSocketHandshakeError::MissingHeader("sec-websocket-key"));
    }
    let k = string_from_chars(t.as_slice());
    let decoded = match base64_decode(k.as_str()) {
        Some(d) => d,
        None => {
            return Err(WebSocketHandshakeError::InvalidKeyBase64);
        },
    };
    if decoded.len() != 16 {
        return Err(WebSocketHandshakeError::InvalidKeyLength { decoded_len: decoded.len() });
    }
    let mut input: Vec<u8> = Vec::new();
    input.extend_from_slice(k.as_str().as_bytes());
    input.extend_from_slice(WS_GUID.as_bytes());
    assert(input@ =~= encode_utf8(k@) + encode_utf8(WS_GUID@));
    let digest = sha1(input.as_slice());
    Ok(base64_encode(&digest))
}

// =============================================================================
// Frames
// =============================================================================

/// A WebSocket opcode.
#[derive(Debug, Clone, Copy, PartialEq, Eq, Structural)]
pub enum OpCode {
    Continuation,
    Text,
    Binary,
    Close,
    Ping,
    Pong,
}

/// The number of an opcode on the wire.
pub open spec fn opcode_number(op: OpCode) -> u8 {
    match op {
        OpCode::Continuation => 0x0,
        OpCode::Text => 0x1,
        OpCode::Binary => 0x2,
        OpCode::Close => 0x8,
        OpCode::Ping => 0x9,
        OpCode::Pong => 0xA,
    }
}

/// The opcode of a number on the wire.
pub open spec fn opcode_of(b: u8) -> Option<OpCode> {
    if b == 0x0 {
        Some(OpCode::Continuation)
    } else if b == 0x1 {
        Some(OpCode::Text)
    } else if b == 0x2 {
        Some(OpCode::Binary)
    } else if b == 0x8 {
        Some(OpCode::Close)
    } else if b == 0x9 {
        Some(OpCode::Ping)
    } else if b == 0xA {
        Some(OpCode::Pong)
    } else {
        None
    }
}

pub open spec fn is_control_op(op: OpCode) -> bool {
    op == OpCode::Close || op == OpCode::Ping || op == OpCode::Pong
}

impl OpCode {
    pub fn from_u8(b: u8) -> (r: Option<Self>)
        ensures
            r == opcode_of(b),
    {
        match b {
            0x0 => Some(OpCode::Continuation),
            0x1 => Some(OpCode::Text),
            0x2 => Some(OpCode::Binary),
            0x8 => Some(OpCode::Close),
            0x9 => Some(OpCode::Ping),
            0xA => Some(OpCode::Pong),
            _ => None,
        }
    }

    /// The opcode's number on the wire.
    pub fn to_u8(self) -> (b: u8)
        ensures
            b == opcode_number(self),
    {
        match self {
            OpCode::Continuation => 0x0,
            OpCode::Text => 0x1,
            OpCode::Binary => 0x2,
            OpCode::Close => 0x8,
            OpCode::Ping => 0x9,
            OpCode::Pong => 0xA,
        }
    }

    pub fn is_control(self) -> (r: bool)
        ensures
            r == is_control_op(self),
    {
        match self {
            OpCode::Close | OpCode::Ping | OpCode::Pong => true,
            _ => false,
        }
    }
}

/// A single WebSocket frame.
#[derive(Debug, Clone, PartialEq, Eq)]
pub struct Frame {
    pub fin: bool,
    pub opcode: OpCode,
    pub payload: Vec<u8>,
}

/// The mathematical form of a [`Frame`].
pub struct FrameView {
    pub fin: bool,
    pub opcode: OpCode,
    pub payload: Seq<u8>,
}

impl View for Frame {
    type V = FrameView;

    open spec fn view(&self) -> FrameView {
        FrameView { fin: self.fin, opcode: self.opcode, payload: self.payload@ }
    }
}

/// What decoding the bytes received so far gives.
#[derive(Debug)]
pub enum FrameDecode {
    /// This many more bytes are needed before anything can be decided.
    NeedMore(usize),
    /// A frame, and the number of bytes it took.
    Frame(Frame, usize),
    /// The bytes break the protocol.
    Invalid(&'static str),
}

pub enum FrameDecodeView {
    NeedMore(nat),
    Frame(FrameView, nat),
    Invalid(Seq<char>),
}

impl View for FrameDecode {
    type V = FrameDecodeView;

    open spec fn view(&self) -> FrameDecodeView {
        match self {
            FrameDecode::NeedMore(n) => FrameDecodeView::NeedMore(*n as nat),
            FrameDecode::Frame(f, n) => FrameDecodeView::Frame(f@, *n as nat),
            FrameDecode::Invalid(m) => FrameDecodeView::Invalid(m@),
        }
    }
}

/// The big-endian number of `b[i..i + k]`.
pub open spec fn be_number(b: Seq<u8>, i: int, k: nat) -> nat
    decreases k,
{
    if k == 0 {
        0
    } else {
        be_number(b, i, (k - 1) as nat) * 256 + b[i + k - 1] as nat
    }
}

/// `payload` unmasked with the four-byte `mask`.
pub open spec fn unmasked(payload: Seq<u8>, mask: Seq<u8>) -> Seq<u8> {
    Seq::new(payload.len(), |i: int| payload[i] ^ mask[i % 4])
}

/// The decision on a client frame at the start of `b`: the header's checks
/// come in the order the bytes arrive.
pub open spec fn decode_frame_spec(b: Seq<u8>) -> FrameDecodeView {
    if b.len() < 2 {
        FrameDecodeView::NeedMore((2 - b.len()) as nat)
    } else {
        let fin = b[0] & 0x80u8 != 0;
        let masked = b[1] & 0x80u8 != 0;
        let len7 = b[1] & 0x7fu8;
        match opcode_of(b[0] & 0x0fu8) {
            None => FrameDecodeView::Invalid("invalid opcode"@),
            Some(op) => if is_control_op(op) && !fin {
                FrameDecodeView::Invalid("control frames must not be fragmented"@)
            } else {
                let hdr: int = if len7 == 126 { 4 } else if len7 == 127 { 10 } else { 2 };
                if b.len() < hdr {
                    FrameDecodeView::NeedMore((hdr - b.len()) as nat)
                } else {
                    let len: nat = if len7 == 126 { be_number(b, 2, 2) } else if len7 == 127 { be_number(b, 2, 8) } else { len7 as nat };
                    if len7 == 127 && len >= 0x8000_0000_0000_0000 {
                        FrameDecodeView::Invalid("invalid 64-bit length"@)
                    } else if !masked {
                        FrameDecodeView::Invalid("client->server frames must be masked"@)
                    } else if b.len() < hdr + 4 {
                        FrameDecodeView::NeedMore((hdr + 4 - b.len()) as nat)
                    } else if len > usize::MAX {
                        FrameDecodeView::Invalid("len too large"@)
                    } else if is_control_op(op) && len > 125 {
                        FrameDecodeView::Invalid("control frame too large"@)
                    } else if b.len() < hdr + 4 + len {
                        FrameDecodeView::NeedMore((hdr + 4 + len - b.len()) as nat)
                    } else {
                        FrameDecodeView::Frame(
                            FrameView {
                                fin,
                                opcode: op,
                                payload: unmasked(b.subrange(hdr + 4, hdr + 4 + len), b.subrange(hdr, hdr + 4)),
                            },
                            (hdr + 4 + len) as nat,
                        )
                    }
                }
            },
        }
    }
}

/// The data opcode a header's low nibble names: continuation, text or binary.
pub open spec fn data_opcode(n: u8) -> Option<OpCode> {
    if n == 0 {
        Some(OpCode::Continuation)
    } else if n == 1 {
        Some(OpCode::Text)
    } else if n == 2 {
        Some(OpCode::Binary)
    } else {
        None
    }
}

/// A complete masked client frame carrying data (continuation, text or
/// binary) with a short payload decodes to a frame with that opcode, its
/// FIN bit and its payload unmasked, whether FIN is set or clear: data may
/// be fragmented. The fragmentation error is only given for a close, ping
/// or pong opcode with FIN clear.
pub proof fn lemma_data_frames_decode(b: Seq<u8>)
    ensures
        b.len() >= 2 && data_opcode(b[0] & 0x0fu8) is Some && b[1] & 0x80u8 != 0 && (b[1] & 0x7fu8) < 126
            && b.len() >= 6 + (b[1] & 0x7fu8) ==> decode_frame_spec(b) == FrameDecodeView::Frame(
            FrameView {
                fin: b[0] & 0x80u8 != 0,
                opcode: data_opcode(b[0] & 0x0fu8)->Some_0,
                payload: unmasked(b.subrange(6, 6 + (b[1] & 0x7fu8)), b.subrange(2, 6)),
            },
            (6 + (b[1] & 0x7fu8)) as nat,
        ),
        decode_frame_spec(b) == FrameDecodeView::Invalid("control frames must not be fragmented"@) ==> b.len() >= 2
            && b[0] & 0x80u8 == 0 && (b[0] & 0x0fu8 == 8 || b[0] & 0x0fu8 == 9 || b[0] & 0x0fu8 == 10),
{
    reveal_strlit("control frames must not be fragmented");
    reveal_strlit("invalid opcode");
    reveal_strlit("invalid 64-bit length");
    reveal_strlit("client->server frames must be masked");
    reveal_strlit("len too large");
    reveal_strlit("control frame too large");
    let m = "control frames must not be fragmented"@;
    assert(m.len() == 37);
    assert("invalid opcode"@ != m) by { assert("invalid opcode"@.len() == 14); }
    assert("invalid 64-bit length"@ != m) by { assert("invalid 64-bit length"@.len() == 21); }
    assert("client->server frames must be masked"@ != m) by {
        assert("client->server frames must be masked"@[0] == 'c' && m[0] == 'c');
        assert("client->server frames must be masked"@[1] == 'l' && m[1] == 'o');
    }
    assert("len too large"@ != m) by { assert("len too large"@.len() == 13); }
    assert("control frame too large"@ != m) by { assert("control frame too large"@.len() == 23); }
    if b.len() >= 2 {
        let x = b[0] & 0x0fu8;
        if data_opcode(x) is Some {
            assert(opcode_of(x) == data_opcode(x));
        }
    }
}

fn read_be(b: &[u8], i: usize, k: usize) -> (r: u64)
    requires
        i + k <= b@.len(),
        k <= 8,
    ensures
        r as nat == be_number(b@, i as int, k as nat),
{
    let n = b.len();
    let mut r: u64 = 0;
    let mut j: usize = 0;
    while j < k
        invariant
            n == b@.len(),
            j <= k <= 8,
            i + k <= b@.len(),
            r as nat == be_number(b@, i as int, j as nat),
            r as nat <= pow256(j as nat) - 1,
        decreases k - j,
    {
        proof {
            lemma_pow256_step(j as nat);
        }
        assert(r as nat * 256 + b@[i + j] as nat <= pow256((j + 1) as nat) - 1) by (nonlinear_arith)
            requires
                r as nat <= pow256(j as nat) - 1,
                pow256((j + 1) as nat) == pow256(j as nat) * 256,
                b@[i + j] < 256,
        ;
        proof {
            lemma_pow256_bound((j + 1) as nat);
        }
        r = r * 256 + b[i + j] as u64;
        j += 1;
    }
    r
}

pub open spec fn pow256(k: nat) -> nat
    decreases k,
{
    if k == 0 { 1 } else { pow256((k - 1) as nat) * 256 }
}

proof fn lemma_pow256_step(k: nat)
    ensures
        pow256(k + 1) == pow256(k) * 256,
        pow256(k) >= 1,
    decreases k,
{
    if k > 0 {
        lemma_pow256_step((k - 1) as nat);
    }
}

proof fn lemma_pow256_bound(k: nat)
    requires
        k <= 8,
    ensures
        pow256(k) <= 0x1_0000_0000_0000_0000,
    decreases 8 - k,
{
    if k < 8 {
        lemma_pow256_bound(k + 1);
        lemma_pow256_step(k);
    } else {
        reveal_with_fuel(pow256, 9);
    }
}

/// Decides what the bytes received so far hold: a whole client frame, the
/// need for more bytes, or a protocol violation.
#[verifier::rlimit(40)]
pub fn decode_frame(b: &[u8]) -> (r: FrameDecode)
    ensures
        r@ == decode_frame_spec(b@),
{
    let n = b.len();
    if n < 2 {
        return FrameDecode::NeedMore(2 - n);
    }
    let b0 = b[0];
    let b1 = b[1];
    let fin = (b0 & 0x80) != 0;
    let masked = (b1 & 0x80) != 0;
    let len7 = b1 & 0x7f;
    let opcode = match OpCode::from_u8(b0 & 0x0f) {
        Some(op) => op,
        None => {
            return FrameDecode::Invalid("invalid opcode");
        },
    };
    if opcode.is_control() && !fin {
        return FrameDecode::Invalid("control frames must not be fragmented");
    }
    let hdr: usize = if len7 == 126 { 4 } else if len7 == 127 { 10 } else { 2 };
    if n < hdr {
        return FrameDecode::NeedMore(hdr - n);
    }
    let len: u64 = if len7 == 126 {
        read_be(b, 2, 2)
    } else if len7 == 127 {
        read_be(b, 2, 8)
    } else {
        len7 as u64
    };
    if len7 == 127 && (len >> 63) != 0 {
        assert(len >= 0x8000_0000_0000_0000) by (bit_vector)
            requires
                (len >> 63u64) != 0;
        return FrameDecode::Invalid("invalid 64-bit length");
    }
    if len7 == 127 {
        assert(len < 0x8000_0000_0000_0000) by (bit_vector)
            requires
                (len >> 63u64) == 0;
    }
    if !masked {
        return FrameDecode::Invalid("client->server frames must be masked");
    }
    if n < hdr + 4 {
        return FrameDecode::NeedMore(hdr + 4 - n);
    }
    if len > usize::MAX as u64 {
        return FrameDecode::Invalid("len too large");
    }
    let payload_len = len as usize;
    if opcode.is_control() && payload_len > 125 {
        return FrameDecode::Invalid("control frame too large");
    }
    let start = hdr + 4;
    if n - start < payload_len {
        return FrameDecode::NeedMore(payload_len - (n - start));
    }
    let mut payload: Vec<u8> = Vec::new();
    let mut i: usize = 0;
    while i < payload_len
        invariant
            i <= payload_len,
            start + payload_len <= n == b@.len(),
            start == hdr + 4,
            payload@ == unmasked(b@.subrange(start as int, (start + payload_len) as int), b@.subrange(hdr as int, start as int)).take(i as int),
        decreases payload_len - i,
    {
        payload.push(b[start + i] ^ b[hdr + (i % 4)]);
        i += 1;
        assert(payload@ =~= unmasked(b@.subrange(start as int, (start + payload_len) as int), b@.subrange(hdr as int, start as int)).take(i as int));
    }
    assert(payload@ =~= unmasked(b@.subrange(start as int, (start + payload_len) as int), b@.subrange(hdr as int, start as int)));
    FrameDecode::Frame(Frame { fin, opcode, payload }, start + payload_len)
}

/// The bytes of a server frame: unmasked, with the shortest length field.
pub open spec fn encode_frame_spec(f: FrameView) -> Seq<u8> {
    let b0 = (if f.fin { 0x80u8 } else { 0u8 }) | opcode_number(f.opcode);
    let len = f.payload.len();
    let head = if len <= 125 {
        seq![b0, len as u8]
    } else if len <= 0xffff {
        seq![b0, 126u8, ((len / 256) % 256) as u8, (len % 256) as u8]
    } else {
        seq![b0, 127u8] + Seq::new(8, |k: int| ((len / pow256((7 - k) as nat)) % 256) as u8)
    };
    head + f.payload
}

/// Encodes a frame as the server sends it.
pub fn encode_frame(frame: &Frame) -> (out: Vec<u8>)
    ensures
        out@ == encode_frame_spec(frame@),
{
    let mut out: Vec<u8> = Vec::new();
    let b0 = (if frame.fin { 0x80u8 } else { 0u8 }) | frame.opcode.to_u8();
    out.push(b0);
    let len = frame.payload.len();
    if len <= 125 {
        out.push(len as u8);
    } else if len <= 0xffff {
        out.push(126u8);
        out.push(((len / 256) % 256) as u8);
        out.push((len % 256) as u8);
    } else {
        out.push(127u8);
        let ghost head = out@;
        let mut k: usize = 0;
        while k < 8
            invariant
                k <= 8,
                len == frame.payload@.len(),
                out@ == head + Seq::new(8, |t: int| ((frame.payload@.len() / pow256((7 - t) as nat)) % 256) as u8).take(k as int),
            decreases 8 - k,
        {
            let d = div_pow256(len as u64, 7 - k);
            out.push((d % 256) as u8);
            k += 1;
            assert(out@ =~= head + Seq::new(8, |t: int| ((frame.payload@.len() / pow256((7 - t) as nat)) % 256) as u8).take(k as int));
        }
    }
    let ghost before = out@;
    let mut i: usize = 0;
    while i < frame.payload.len()
        invariant
            i <= frame.payload@.len(),
            out@ == before + frame.payload@.take(i as int),
        decreases frame.payload@.len() - i,
    {
        out.push(frame.payload[i]);
        i += 1;
        assert(out@ =~= before + frame.payload@.take(i as int));
    }
    assert(frame.payload@.take(frame.payload@.len() as int) =~= frame.payload@);
    out
}

/// `x / 256^e`.
fn div_pow256(x: u64, e: usize) -> (r: u64)
    requires
        e <= 7,
    ensures
        r as nat == x as nat / pow256(e as nat),
{
    let mut r = x;
    let mut j: usize = 0;
    assert(pow256(0) == 1);
    assert(x as nat / 1 == x as nat);
    while j < e
        invariant
            j <= e <= 7,
            r as nat == x as nat / pow256(j as nat),
        decreases e - j,
    {
        proof {
            lemma_pow256_step(j as nat);
            vstd::arithmetic::div_mod::lemma_div_denominator(x as int, pow256(j as nat) as int, 256);
        }
        r = r / 256;
        j += 1;
    }
    r
}

/// A final text frame carrying `text`.
pub fn text_frame(text: &str) -> (f: Frame)
    ensures
        f@ == (FrameView { fin: true, opcode: OpCode::Text, payload: encode_utf8(text@) }),
{
    let mut payload: Vec<u8> = Vec::new();
    payload.extend_from_slice(text.as_bytes());
    assert(payload@ =~= encode_utf8(text@));
    Frame { fin: true, opcode: OpCode::Text, payload }
}


// =============================================================================
// Errors and text messages
// =============================================================================

#[verifier::external_type_specification]
#[verifier::external_body]
pub struct ExIoError(std::io::Error);

/// A WebSocket protocol error.
#[derive(Debug)]
pub enum WebSocketError {
    Io(std::io::Error),
    Protocol(&'static str),
    Utf8(std::str::Utf8Error),
}

/// `std::io::Error`'s `Display` text.
#[verifier::external_body]
fn io_error_text(e: &std::io::Error) -> String {
    e.to_string()
}

/// `std::str::Utf8Error`'s `Display` text.
#[verifier::external_body]
fn utf8_error_text(e: &std::str::Utf8Error) -> String {
    e.to_string()
}

impl WebSocketError {
    /// The error's message: a prefix naming the kind of error, then the
    /// protocol message or the underlying error's own text.
    pub fn to_string(&self) -> (s: String)
        ensures
            self matches WebSocketError::Protocol(m) ==> s@ == "websocket protocol error: "@ + m@,
            self is Io ==> s@.take(21) == "websocket I/O error: "@,
            self is Utf8 ==> s@.take(39) == "invalid utf-8 in websocket text frame: "@,
    {
        proof {
            reveal_strlit("websocket I/O error: ");
            reveal_strlit("invalid utf-8 in websocket text frame: ");
        }
        match self {
            WebSocketError::Io(e) => {
                let mut s = String::from_str("websocket I/O error: ");
                let t = io_error_text(e);
                push_str(&mut s, t.as_str());
                s
            },
            WebSocketError::Protocol(m) => {
                let mut s = String::from_str("websocket protocol error: ");
                push_str(&mut s, m);
                s
            },
            WebSocketError::Utf8(e) => {
                let mut s = String::from_str("invalid utf-8 in websocket text frame: ");
                let t = utf8_error_text(e);
                push_str(&mut s, t.as_str());
                s
            },
        }
    }
}

/// The text of a text frame (what `read_text` does with the frame it reads):
/// another opcode is a protocol error, and the payload must be UTF-8.
pub fn text_of_frame(frame: &Frame) -> (r: Result<String, WebSocketError>)
    ensures
        frame.opcode != OpCode::Text ==> (r matches Err(WebSocketError::Protocol(m)) && m@ == "expected text frame"@),
        frame.opcode == OpCode::Text && !valid_utf8(frame.payload@) ==> r matches Err(WebSocketError::Utf8(_)),
        frame.opcode == OpCode::Text && valid_utf8(frame.payload@) ==> (r matches Ok(s) && s@ == decode_utf8(frame.payload@)),
{
    if frame.opcode != OpCode::Text {
        return Err(WebSocketError::Protocol("expected text frame"));
    }
    match from_utf8(frame.payload.as_slice()) {
        Ok(s) => Ok(String::from_str(s)),
        Err(e) => Err(WebSocketError::Utf8(e)),
    }
}

} // verus!

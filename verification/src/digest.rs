//! HTTP Digest authentication (RFC 7616 / RFC 2617): parsing of the
//! `Authorization: Digest ...` header, computation of the expected response
//! and its verification, with MD5 and SHA-256 written out here.
use vstd::prelude::*;
use vstd::utf8::*;
use crate::multipart::{header_get, header_insert, headers_view, insert_header};
use crate::query::first_value;
use crate::scan::copy_range;
use crate::method::{method_name, Method};
use crate::text::{
    all_hex, ascii_lower, char_ascii_lower, char_is_space, chars_eq_ignore_case, chars_of, eq_ignore_case, hex2, hex_digit, hex_digit_value, is_lower_hex_char, is_space, lower_all, lower_chars, push_char, push_hex2, push_str, slice_chars, string_from_chars, trim, trimmed, utf8_str,
};
use crate::bits::{
    be32, be32_bytes, be64_bytes, le32, le32_bytes, le64_bytes, push_be64, push_le64, read_be32,
    read_le32, rotate_left, rotate_right, rotl, rotr,
};

verus! {

// =============================================================================
// MD5 (RFC 1321)
// =============================================================================

/// The sine-derived constants of MD5.
pub open spec fn md5_k_table() -> Seq<u32> {
    seq![
        0xd76aa478u32, 0xe8c7b756, 0x242070db, 0xc1bdceee, 0xf57c0faf, 0x4787c62a, 0xa8304613, 0xfd469501,
        0x698098d8, 0x8b44f7af, 0xffff5bb1, 0x895cd7be, 0x6b901122, 0xfd987193, 0xa679438e, 0x49b40821,
        0xf61e2562, 0xc040b340, 0x265e5a51, 0xe9b6c7aa, 0xd62f105d, 0x02441453, 0xd8a1e681, 0xe7d3fbc8,
        0x21e1cde6, 0xc33707d6, 0xf4d50d87, 0x455a14ed, 0xa9e3e905, 0xfcefa3f8, 0x676f02d9, 0x8d2a4c8a,
        0xfffa3942, 0x8771f681, 0x6d9d6122, 0xfde5380c, 0xa4beea44, 0x4bdecfa9, 0xf6bb4b60, 0xbebfbc70,
        0x289b7ec6, 0xeaa127fa, 0xd4ef3085, 0x04881d05, 0xd9d4d039, 0xe6db99e5, 0x1fa27cf8, 0xc4ac5665,
        0xf4292244, 0x432aff97, 0xab9423a7, 0xfc93a039, 0x655b59c3, 0x8f0ccc92, 0xffeff47d, 0x85845dd1,
        0x6fa87e4f, 0xfe2ce6e0, 0xa3014314, 0x4e0811a1, 0xf7537e82, 0xbd3af235, 0x2ad7d2bb, 0xeb86d391,
    ]
}

/// The rotation of MD5 round `i`: four amounts per group of sixteen rounds.
pub open spec fn md5_shift(i: int) -> u32 {
    let r = i % 4;
    if i < 16 {
        if r == 0 { 7 } else if r == 1 { 12 } else if r == 2 { 17 } else { 22 }
    } else if i < 32 {
        if r == 0 { 5 } else if r == 1 { 9 } else if r == 2 { 14 } else { 20 }
    } else if i < 48 {
        if r == 0 { 4 } else if r == 1 { 11 } else if r == 2 { 16 } else { 23 }
    } else {
        if r == 0 { 6 } else if r == 1 { 10 } else if r == 2 { 15 } else { 21 }
    }
}

/// The auxiliary function of MD5 round `i` and the index of the message
/// word it takes.
pub open spec fn md5_fg(i: int, b: u32, c: u32, d: u32) -> (u32, int) {
    if i < 16 {
        ((b & c) | (!b & d), i)
    } else if i < 32 {
        ((d & b) | (!d & c), (5 * i + 1) % 16)
    } else if i < 48 {
        (b ^ c ^ d, (3 * i + 5) % 16)
    } else {
        (c ^ (b | !d), (7 * i) % 16)
    }
}

/// One MD5 round on the working state `(a, b, c, d)`.
pub open spec fn md5_step(st: (u32, u32, u32, u32), m: Seq<u32>, i: int) -> (u32, u32, u32, u32) {
    let (a, b, c, d) = st;
    let (f, g) = md5_fg(i, b, c, d);
    let sum = a.wrapping_add(f).wrapping_add(md5_k_table()[i]).wrapping_add(m[g]);
    (d, b.wrapping_add(rotl(sum, md5_shift(i))), b, c)
}

/// The working state after the first `n` rounds.
pub open spec fn md5_rounds(st: (u32, u32, u32, u32), m: Seq<u32>, n: nat) -> (u32, u32, u32, u32)
    decreases n,
{
    if n == 0 {
        st
    } else {
        md5_step(md5_rounds(st, m, (n - 1) as nat), m, n - 1)
    }
}

/// The MD5 compression of one block of sixteen words into the chaining state.
pub open spec fn md5_compress(st: (u32, u32, u32, u32), m: Seq<u32>) -> (u32, u32, u32, u32) {
    let r = md5_rounds(st, m, 64);
    (st.0.wrapping_add(r.0), st.1.wrapping_add(r.1), st.2.wrapping_add(r.2), st.3.wrapping_add(r.3))
}

pub open spec fn md5_init() -> (u32, u32, u32, u32) {
    (0x67452301u32, 0xefcdab89u32, 0x98badcfeu32, 0x10325476u32)
}

/// The sixteen little-endian words of block `blk` of `p`.
pub open spec fn md5_block_words(p: Seq<u8>, blk: int) -> Seq<u32> {
    Seq::new(16, |j: int| le32(p, 64 * blk + 4 * j))
}

/// The chaining state after the first `n` blocks of `p`.
pub open spec fn md5_chain(p: Seq<u8>, n: nat) -> (u32, u32, u32, u32)
    decreases n,
{
    if n == 0 {
        md5_init()
    } else {
        md5_compress(md5_chain(p, (n - 1) as nat), md5_block_words(p, n - 1))
    }
}

/// The number of zero bytes that pad a message of `n` bytes, after the
/// `0x80` byte, to 56 modulo 64.
pub open spec fn pad_zeros(n: int) -> nat {
    ((119 - n % 64) % 64) as nat
}

/// The length of `data` in bits, modulo 2^64.
pub open spec fn bit_length(data: Seq<u8>) -> u64 {
    (data.len() as u64).wrapping_mul(8u64)
}

/// A message padded for MD5: `0x80`, zeros, and the bit length, little-endian.
pub open spec fn md5_padded(data: Seq<u8>) -> Seq<u8> {
    data + seq![0x80u8] + Seq::new(pad_zeros(data.len() as int), |k: int| 0u8) + le64_bytes(bit_length(data))
}

/// The MD5 digest of `data`.
pub open spec fn md5_digest(data: Seq<u8>) -> Seq<u8> {
    let p = md5_padded(data);
    let st = md5_chain(p, p.len() / 64);
    le32_bytes(st.0) + le32_bytes(st.1) + le32_bytes(st.2) + le32_bytes(st.3)
}

/// `data` followed by `0x80` and the zeros that bring it to 56 modulo 64.
pub(crate) fn padded_prefix(data: &[u8]) -> (msg: Vec<u8>)
    ensures
        msg@ == data@ + seq![0x80u8] + Seq::new(pad_zeros(data@.len() as int), |k: int| 0u8),
{
    let n = data.len();
    let mut msg: Vec<u8> = Vec::new();
    msg.extend_from_slice(data);
    assert(msg@ =~= data@);
    msg.push(0x80u8);
    let zeros = (119 - n % 64) % 64;
    let ghost head = msg@;
    let mut k: usize = 0;
    while k < zeros
        invariant
            k <= zeros,
            zeros == pad_zeros(n as int),
            n == data@.len(),
            head == data@ + seq![0x80u8],
            msg@ == head + Seq::new(k as nat, |j: int| 0u8),
        decreases zeros - k,
    {
        msg.push(0u8);
        k += 1;
        assert(msg@ =~= head + Seq::new(k as nat, |j: int| 0u8));
    }
    msg
}

/// The MD5 digest of `data`.
pub fn md5(data: &[u8]) -> (out: [u8; 16])
    ensures
        out@ == md5_digest(data@),
{
    let n = data.len();
    let mut msg = padded_prefix(data);
    push_le64(&mut msg, (n as u64).wrapping_mul(8));
    assert(msg@ == md5_padded(data@));
    let ks: [u32; 64] = [
        0xd76aa478, 0xe8c7b756, 0x242070db, 0xc1bdceee, 0xf57c0faf, 0x4787c62a, 0xa8304613, 0xfd469501,
        0x698098d8, 0x8b44f7af, 0xffff5bb1, 0x895cd7be, 0x6b901122, 0xfd987193, 0xa679438e, 0x49b40821,
        0xf61e2562, 0xc040b340, 0x265e5a51, 0xe9b6c7aa, 0xd62f105d, 0x02441453, 0xd8a1e681, 0xe7d3fbc8,
        0x21e1cde6, 0xc33707d6, 0xf4d50d87, 0x455a14ed, 0xa9e3e905, 0xfcefa3f8, 0x676f02d9, 0x8d2a4c8a,
        0xfffa3942, 0x8771f681, 0x6d9d6122, 0xfde5380c, 0xa4beea44, 0x4bdecfa9, 0xf6bb4b60, 0xbebfbc70,
        0x289b7ec6, 0xeaa127fa, 0xd4ef3085, 0x04881d05, 0xd9d4d039, 0xe6db99e5, 0x1fa27cf8, 0xc4ac5665,
        0xf4292244, 0x432aff97, 0xab9423a7, 0xfc93a039, 0x655b59c3, 0x8f0ccc92, 0xffeff47d, 0x85845dd1,
        0x6fa87e4f, 0xfe2ce6e0, 0xa3014314, 0x4e0811a1, 0xf7537e82, 0xbd3af235, 0x2ad7d2bb, 0xeb86d391,
    ];
    assert(ks@ =~= md5_k_table());
    let mut a0: u32 = 0x67452301;
    let mut b0: u32 = 0xefcdab89;
    let mut c0: u32 = 0x98badcfe;
    let mut d0: u32 = 0x10325476;
    let len = msg.len();
    let nblocks = len / 64;
    let mut blk: usize = 0;
    while blk < nblocks
        invariant
            blk <= nblocks,
            nblocks == msg@.len() / 64,
            len == msg@.len(),
            ks@ == md5_k_table(),
            (a0, b0, c0, d0) == md5_chain(msg@, blk as nat),
        decreases nblocks - blk,
    {
        let base = blk * 64;
        let mut m: Vec<u32> = Vec::new();
        let mut j: usize = 0;
        while j < 16
            invariant
                j <= 16,
                blk < nblocks,
                nblocks == msg@.len() / 64,
                base == blk * 64,
                m@ == md5_block_words(msg@, blk as int).take(j as int),
            decreases 16 - j,
        {
            m.push(read_le32(msg.as_slice(), base + 4 * j));
            j += 1;
            assert(m@ =~= md5_block_words(msg@, blk as int).take(j as int));
        }
        assert(m@ =~= md5_block_words(msg@, blk as int));
        let mut a = a0;
        let mut b = b0;
        let mut c = c0;
        let mut d = d0;
        let mut i: usize = 0;
        while i < 64
            invariant
                i <= 64,
                m@.len() == 16,
                ks@ == md5_k_table(),
                (a, b, c, d) == md5_rounds((a0, b0, c0, d0), m@, i as nat),
            decreases 64 - i,
        {
            let (f, g) = if i < 16 {
                ((b & c) | (!b & d), i)
            } else if i < 32 {
                ((d & b) | (!d & c), (5 * i + 1) % 16)
            } else if i < 48 {
                (b ^ c ^ d, (3 * i + 5) % 16)
            } else {
                (c ^ (b | !d), (7 * i) % 16)
            };
            let r = i % 4;
            let s: u32 = if i < 16 {
                if r == 0 { 7 } else if r == 1 { 12 } else if r == 2 { 17 } else { 22 }
            } else if i < 32 {
                if r == 0 { 5 } else if r == 1 { 9 } else if r == 2 { 14 } else { 20 }
            } else if i < 48 {
                if r == 0 { 4 } else if r == 1 { 11 } else if r == 2 { 16 } else { 23 }
            } else {
                if r == 0 { 6 } else if r == 1 { 10 } else if r == 2 { 15 } else { 21 }
            };
            let sum = a.wrapping_add(f).wrapping_add(ks[i]).wrapping_add(m[g]);
            let tmp = d;
            d = c;
            c = b;
            b = b.wrapping_add(rotate_left(sum, s));
            a = tmp;
            i += 1;
        }
        a0 = a0.wrapping_add(a);
        b0 = b0.wrapping_add(b);
        c0 = c0.wrapping_add(c);
        d0 = d0.wrapping_add(d);
        blk += 1;
    }
    let out: [u8; 16] = [
        (a0 & 0xff) as u8, ((a0 >> 8) & 0xff) as u8, ((a0 >> 16) & 0xff) as u8, ((a0 >> 24) & 0xff) as u8,
        (b0 & 0xff) as u8, ((b0 >> 8) & 0xff) as u8, ((b0 >> 16) & 0xff) as u8, ((b0 >> 24) & 0xff) as u8,
        (c0 & 0xff) as u8, ((c0 >> 8) & 0xff) as u8, ((c0 >> 16) & 0xff) as u8, ((c0 >> 24) & 0xff) as u8,
        (d0 & 0xff) as u8, ((d0 >> 8) & 0xff) as u8, ((d0 >> 16) & 0xff) as u8, ((d0 >> 24) & 0xff) as u8,
    ];
    assert(out@ =~= md5_digest(data@));
    out
}


// =============================================================================
// SHA-256 (FIPS 180-4)
// =============================================================================

/// The round constants of SHA-256.
pub open spec fn sha256_k_table() -> Seq<u32> {
    seq![
        0x428a2f98u32, 0x71374491, 0xb5c0fbcf, 0xe9b5dba5, 0x3956c25b, 0x59f111f1, 0x923f82a4, 0xab1c5ed5,
        0xd807aa98, 0x12835b01, 0x243185be, 0x550c7dc3, 0x72be5d74, 0x80deb1fe, 0x9bdc06a7, 0xc19bf174,
        0xe49b69c1, 0xefbe4786, 0x0fc19dc6, 0x240ca1cc, 0x2de92c6f, 0x4a7484aa, 0x5cb0a9dc, 0x76f988da,
        0x983e5152, 0xa831c66d, 0xb00327c8, 0xbf597fc7, 0xc6e00bf3, 0xd5a79147, 0x06ca6351, 0x14292967,
        0x27b70a85, 0x2e1b2138, 0x4d2c6dfc, 0x53380d13, 0x650a7354, 0x766a0abb, 0x81c2c92e, 0x92722c85,
        0xa2bfe8a1, 0xa81a664b, 0xc24b8b70, 0xc76c51a3, 0xd192e819, 0xd6990624, 0xf40e3585, 0x106aa070,
        0x19a4c116, 0x1e376c08, 0x2748774c, 0x34b0bcb5, 0x391c0cb3, 0x4ed8aa4a, 0x5b9cca4f, 0x682e6ff3,
        0x748f82ee, 0x78a5636f, 0x84c87814, 0x8cc70208, 0x90befffa, 0xa4506ceb, 0xbef9a3f7, 0xc67178f2,
    ]
}

pub open spec fn small_sigma0(x: u32) -> u32 {
    rotr(x, 7) ^ rotr(x, 18) ^ (x >> 3u32)
}

pub open spec fn small_sigma1(x: u32) -> u32 {
    rotr(x, 17) ^ rotr(x, 19) ^ (x >> 10u32)
}

pub open spec fn big_sigma0(x: u32) -> u32 {
    rotr(x, 2) ^ rotr(x, 13) ^ rotr(x, 22)
}

pub open spec fn big_sigma1(x: u32) -> u32 {
    rotr(x, 6) ^ rotr(x, 11) ^ rotr(x, 25)
}

/// The first `n` words of the message schedule of a block whose words are `w16`.
pub open spec fn sha256_schedule(w16: Seq<u32>, n: nat) -> Seq<u32>
    decreases n,
{
    if n <= 16 {
        w16.take(n as int)
    } else {
        let s = sha256_schedule(w16, (n - 1) as nat);
        s.push(
            s[n - 17].wrapping_add(small_sigma0(s[n - 16])).wrapping_add(s[n - 8]).wrapping_add(
                small_sigma1(s[n - 3]),
            ),
        )
    }
}

/// The working state of SHA-256: `(a, b, c, d, e, f, g, h)`.
pub type Sha256State = (u32, u32, u32, u32, u32, u32, u32, u32);

/// One SHA-256 round.
pub open spec fn sha256_step(st: Sha256State, w: Seq<u32>, i: int) -> Sha256State {
    let (a, b, c, d, e, f, g, h) = st;
    let t1 = h.wrapping_add(big_sigma1(e)).wrapping_add((e & f) ^ (!e & g)).wrapping_add(
        sha256_k_table()[i],
    ).wrapping_add(w[i]);
    let t2 = big_sigma0(a).wrapping_add((a & b) ^ (a & c) ^ (b & c));
    (t1.wrapping_add(t2), a, b, c, d.wrapping_add(t1), e, f, g)
}

pub open spec fn sha256_rounds(st: Sha256State, w: Seq<u32>, n: nat) -> Sha256State
    decreases n,
{
    if n == 0 {
        st
    } else {
        sha256_step(sha256_rounds(st, w, (n - 1) as nat), w, n - 1)
    }
}

/// The SHA-256 compression of one block of sixteen words.
pub open spec fn sha256_compress(st: Sha256State, w16: Seq<u32>) -> Sha256State {
    let r = sha256_rounds(st, sha256_schedule(w16, 64), 64);
    (
        st.0.wrapping_add(r.0),
        st.1.wrapping_add(r.1),
        st.2.wrapping_add(r.2),
        st.3.wrapping_add(r.3),
        st.4.wrapping_add(r.4),
        st.5.wrapping_add(r.5),
        st.6.wrapping_add(r.6),
        st.7.wrapping_add(r.7),
    )
}

pub open spec fn sha256_init() -> Sha256State {
    (0x6a09e667u32, 0xbb67ae85u32, 0x3c6ef372u32, 0xa54ff53au32, 0x510e527fu32, 0x9b05688cu32, 0x1f83d9abu32, 0x5be0cd19u32)
}

/// The sixteen big-endian words of block `blk` of `p`.
pub open spec fn be_block_words(p: Seq<u8>, blk: int) -> Seq<u32> {
    Seq::new(16, |j: int| be32(p, 64 * blk + 4 * j))
}

pub open spec fn sha256_chain(p: Seq<u8>, n: nat) -> Sha256State
    decreases n,
{
    if n == 0 {
        sha256_init()
    } else {
        sha256_compress(sha256_chain(p, (n - 1) as nat), be_block_words(p, n - 1))
    }
}

/// A message padded for SHA-256 and SHA-1: `0x80`, zeros, and the bit
/// length, big-endian.
pub open spec fn be_padded(data: Seq<u8>) -> Seq<u8> {
    data + seq![0x80u8] + Seq::new(pad_zeros(data.len() as int), |k: int| 0u8) + be64_bytes(bit_length(data))
}

/// The SHA-256 digest of `data`.
pub open spec fn sha256_digest(data: Seq<u8>) -> Seq<u8> {
    let p = be_padded(data);
    let st = sha256_chain(p, p.len() / 64);
    be32_bytes(st.0) + be32_bytes(st.1) + be32_bytes(st.2) + be32_bytes(st.3) + be32_bytes(st.4)
        + be32_bytes(st.5) + be32_bytes(st.6) + be32_bytes(st.7)
}

/// The sixteen big-endian words of block `blk` of `msg`.
pub fn block_words_be(msg: &[u8], blk: usize) -> (w: Vec<u32>)
    requires
        64 * blk + 64 <= msg@.len(),
    ensures
        w@ == be_block_words(msg@, blk as int),
{
    let _len = msg.len();
    let base = blk * 64;
    let mut w: Vec<u32> = Vec::new();
    let mut j: usize = 0;
    while j < 16
        invariant
            j <= 16,
            base == blk * 64,
            64 * blk + 64 <= msg@.len(),
            w@ == be_block_words(msg@, blk as int).take(j as int),
        decreases 16 - j,
    {
        w.push(read_be32(msg, base + 4 * j));
        j += 1;
        assert(w@ =~= be_block_words(msg@, blk as int).take(j as int));
    }
    assert(w@ =~= be_block_words(msg@, blk as int));
    w
}

/// The full message schedule of a block.
fn sha256_expand(w16: Vec<u32>) -> (w: Vec<u32>)
    requires
        w16@.len() == 16,
    ensures
        w@ == sha256_schedule(w16@, 64),
        w@.len() == 64,
{
    let ghost b = w16@;
    let mut w = w16;
    assert(w@ =~= sha256_schedule(b, 16));
    let mut i: usize = 16;
    while i < 64
        invariant
            16 <= i <= 64,
            w@ == sha256_schedule(b, i as nat),
            w@.len() == i,
        decreases 64 - i,
    {
        let s0 = rotate_right(w[i - 15], 7) ^ rotate_right(w[i - 15], 18) ^ (w[i - 15] >> 3);
        let s1 = rotate_right(w[i - 2], 17) ^ rotate_right(w[i - 2], 19) ^ (w[i - 2] >> 10);
        let next = w[i - 16].wrapping_add(s0).wrapping_add(w[i - 7]).wrapping_add(s1);
        w.push(next);
        i += 1;
    }
    w
}

/// The SHA-256 digest of `data`.
pub fn sha256(data: &[u8]) -> (out: [u8; 32])
    ensures
        out@ == sha256_digest(data@),
{
    let n = data.len();
    let mut msg = padded_prefix(data);
    push_be64(&mut msg, (n as u64).wrapping_mul(8));
    assert(msg@ == be_padded(data@));
    let ks: [u32; 64] = [
        0x428a2f98, 0x71374491, 0xb5c0fbcf, 0xe9b5dba5, 0x3956c25b, 0x59f111f1, 0x923f82a4, 0xab1c5ed5,
        0xd807aa98, 0x12835b01, 0x243185be, 0x550c7dc3, 0x72be5d74, 0x80deb1fe, 0x9bdc06a7, 0xc19bf174,
        0xe49b69c1, 0xefbe4786, 0x0fc19dc6, 0x240ca1cc, 0x2de92c6f, 0x4a7484aa, 0x5cb0a9dc, 0x76f988da,
        0x983e5152, 0xa831c66d, 0xb00327c8, 0xbf597fc7, 0xc6e00bf3, 0xd5a79147, 0x06ca6351, 0x14292967,
        0x27b70a85, 0x2e1b2138, 0x4d2c6dfc, 0x53380d13, 0x650a7354, 0x766a0abb, 0x81c2c92e, 0x92722c85,
        0xa2bfe8a1, 0xa81a664b, 0xc24b8b70, 0xc76c51a3, 0xd192e819, 0xd6990624, 0xf40e3585, 0x106aa070,
        0x19a4c116, 0x1e376c08, 0x2748774c, 0x34b0bcb5, 0x391c0cb3, 0x4ed8aa4a, 0x5b9cca4f, 0x682e6ff3,
        0x748f82ee, 0x78a5636f, 0x84c87814, 0x8cc70208, 0x90befffa, 0xa4506ceb, 0xbef9a3f7, 0xc67178f2,
    ];
    assert(ks@ =~= sha256_k_table());
    let mut h0: u32 = 0x6a09e667;
    let mut h1: u32 = 0xbb67ae85;
    let mut h2: u32 = 0x3c6ef372;
    let mut h3: u32 = 0xa54ff53a;
    let mut h4: u32 = 0x510e527f;
    let mut h5: u32 = 0x9b05688c;
    let mut h6: u32 = 0x1f83d9ab;
    let mut h7: u32 = 0x5be0cd19;
    let len = msg.len();
    let nblocks = len / 64;
    let mut blk: usize = 0;
    while blk < nblocks
        invariant
            blk <= nblocks,
            nblocks == msg@.len() / 64,
            len == msg@.len(),
            ks@ == sha256_k_table(),
            (h0, h1, h2, h3, h4, h5, h6, h7) == sha256_chain(msg@, blk as nat),
        decreases nblocks - blk,
    {
        let w16 = block_words_be(msg.as_slice(), blk);
        let ghost b16 = w16@;
        let w = sha256_expand(w16);
        let mut a = h0;
        let mut b = h1;
        let mut c = h2;
        let mut d = h3;
        let mut e = h4;
        let mut f = h5;
        let mut g = h6;
        let mut h = h7;
        let mut i: usize = 0;
        while i < 64
            invariant
                i <= 64,
                w@.len() == 64,
                ks@ == sha256_k_table(),
                (a, b, c, d, e, f, g, h) == sha256_rounds((h0, h1, h2, h3, h4, h5, h6, h7), w@, i as nat),
            decreases 64 - i,
        {
            let s1 = rotate_right(e, 6) ^ rotate_right(e, 11) ^ rotate_right(e, 25);
            let choose = (e & f) ^ (!e & g);
            let t1 = h.wrapping_add(s1).wrapping_add(choose).wrapping_add(ks[i]).wrapping_add(w[i]);
            let s0 = rotate_right(a, 2) ^ rotate_right(a, 13) ^ rotate_right(a, 22);
            let majority = (a & b) ^ (a & c) ^ (b & c);
            let t2 = s0.wrapping_add(majority);
            h = g;
            g = f;
            f = e;
            e = d.wrapping_add(t1);
            d = c;
            c = b;
            b = a;
            a = t1.wrapping_add(t2);
            i += 1;
        }
        h0 = h0.wrapping_add(a);
        h1 = h1.wrapping_add(b);
        h2 = h2.wrapping_add(c);
        h3 = h3.wrapping_add(d);
        h4 = h4.wrapping_add(e);
        h5 = h5.wrapping_add(f);
        h6 = h6.wrapping_add(g);
        h7 = h7.wrapping_add(h);
        blk += 1;
    }
    let out: [u8; 32] = [
        ((h0 >> 24) & 0xff) as u8, ((h0 >> 16) & 0xff) as u8, ((h0 >> 8) & 0xff) as u8, (h0 & 0xff) as u8,
        ((h1 >> 24) & 0xff) as u8, ((h1 >> 16) & 0xff) as u8, ((h1 >> 8) & 0xff) as u8, (h1 & 0xff) as u8,
        ((h2 >> 24) & 0xff) as u8, ((h2 >> 16) & 0xff) as u8, ((h2 >> 8) & 0xff) as u8, (h2 & 0xff) as u8,
        ((h3 >> 24) & 0xff) as u8, ((h3 >> 16) & 0xff) as u8, ((h3 >> 8) & 0xff) as u8, (h3 & 0xff) as u8,
        ((h4 >> 24) & 0xff) as u8, ((h4 >> 16) & 0xff) as u8, ((h4 >> 8) & 0xff) as u8, (h4 & 0xff) as u8,
        ((h5 >> 24) & 0xff) as u8, ((h5 >> 16) & 0xff) as u8, ((h5 >> 8) & 0xff) as u8, (h5 & 0xff) as u8,
        ((h6 >> 24) & 0xff) as u8, ((h6 >> 16) & 0xff) as u8, ((h6 >> 8) & 0xff) as u8, (h6 & 0xff) as u8,
        ((h7 >> 24) & 0xff) as u8, ((h7 >> 16) & 0xff) as u8, ((h7 >> 8) & 0xff) as u8, (h7 & 0xff) as u8,
    ];
    assert(out@ =~= sha256_digest(data@));
    out
}


// =============================================================================
// The parameter list of the header
// =============================================================================

/// Why the `key=value` list of a Digest header could not be read.
#[derive(Debug, Clone, Copy, PartialEq, Eq, Structural)]
pub enum KvError {
    ExpectedKey,
    ExpectedEq,
    ExpectedValue,
    InvalidEscape,
    Unterminated,
    NonUtf8Value,
}

pub open spec fn kv_error_message(e: KvError) -> Seq<char> {
    match e {
        KvError::ExpectedKey => "expected key"@,
        KvError::ExpectedEq => "expected '='"@,
        KvError::ExpectedValue => "expected value"@,
        KvError::InvalidEscape => "invalid escape"@,
        KvError::Unterminated => "unterminated quoted value"@,
        KvError::NonUtf8Value => "non-utf8 value"@,
    }
}

impl KvError {
    pub fn message(self) -> (m: &'static str)
        ensures
            m@ == kv_error_message(self),
    {
        match self {
            KvError::ExpectedKey => "expected key",
            KvError::ExpectedEq => "expected '='",
            KvError::ExpectedValue => "expected value",
            KvError::InvalidEscape => "invalid escape",
            KvError::Unterminated => "unterminated quoted value",
            KvError::NonUtf8Value => "non-utf8 value",
        }
    }
}

/// ASCII whitespace (`u8::is_ascii_whitespace`).
pub open spec fn is_ascii_ws(b: u8) -> bool {
    b == 32u8 || b == 9u8 || b == 10u8 || b == 12u8 || b == 13u8
}

/// A byte of a parameter name: ASCII letter, digit, `-` or `_`.
pub open spec fn is_key_byte(b: u8) -> bool {
    (48u8 <= b && b <= 57u8) || (65u8 <= b && b <= 90u8) || (97u8 <= b && b <= 122u8) || b == 45u8 || b == 95u8
}

/// The byte classes the parameter scanner skips over.
#[derive(Debug, Clone, Copy, PartialEq, Eq, Structural)]
pub enum Scan {
    /// Whitespace and commas between parameters.
    Separator,
    /// Parameter name bytes.
    Key,
    /// Whitespace.
    Space,
    /// Anything but a comma.
    Unquoted,
}

pub open spec fn in_class(k: Scan, b: u8) -> bool {
    match k {
        Scan::Separator => is_ascii_ws(b) || b == 44u8,
        Scan::Key => is_key_byte(b),
        Scan::Space => is_ascii_ws(b),
        Scan::Unquoted => b != 44u8,
    }
}

/// The first position at or after `i` whose byte is not of class `k`.
pub open spec fn scan_end(b: Seq<u8>, i: int, k: Scan) -> int
    decreases b.len() - i,
{
    if 0 <= i < b.len() && in_class(k, b[i]) {
        scan_end(b, i + 1, k)
    } else {
        i
    }
}

pub proof fn lemma_scan_end_bounds(b: Seq<u8>, i: int, k: Scan)
    requires
        0 <= i <= b.len(),
    ensures
        i <= scan_end(b, i, k) <= b.len(),
    decreases b.len() - i,
{
    if i < b.len() && in_class(k, b[i]) {
        lemma_scan_end_bounds(b, i + 1, k);
    }
}

fn byte_in_class(k: Scan, b: u8) -> (r: bool)
    ensures
        r == in_class(k, b),
{
    match k {
        Scan::Separator => b == 32u8 || b == 9u8 || b == 10u8 || b == 12u8 || b == 13u8 || b == 44u8,
        Scan::Key => (48u8 <= b && b <= 57u8) || (65u8 <= b && b <= 90u8) || (97u8 <= b && b <= 122u8) || b == 45u8 || b == 95u8,
        Scan::Space => b == 32u8 || b == 9u8 || b == 10u8 || b == 12u8 || b == 13u8,
        Scan::Unquoted => b != 44u8,
    }
}

fn scan(b: &[u8], i: usize, k: Scan) -> (r: usize)
    requires
        i <= b@.len(),
    ensures
        r == scan_end(b@, i as int, k),
        i <= r <= b@.len(),
{
    let mut j = i;
    while j < b.len() && byte_in_class(k, b[j])
        invariant
            i <= j <= b@.len(),
            scan_end(b@, i as int, k) == scan_end(b@, j as int, k),
        decreases b@.len() - j,
    {
        j += 1;
    }
    j
}

/// The bytes of a quoted value from position `i` on, after its opening
/// quote: each byte stands for the character of the same number, and a
/// backslash takes the next byte literally. Gives the value and the position
/// after the closing quote.
pub open spec fn quoted(b: Seq<u8>, i: int, acc: Seq<char>) -> Result<(Seq<char>, int), KvError>
    decreases b.len() - i,
{
    if i < 0 || i >= b.len() {
        Err(KvError::Unterminated)
    } else if b[i] == 92u8 {
        if i + 1 >= b.len() {
            Err(KvError::InvalidEscape)
        } else {
            quoted(b, i + 2, acc.push(b[i + 1] as char))
        }
    } else if b[i] == 34u8 {
        Ok((acc, i + 1))
    } else {
        quoted(b, i + 1, acc.push(b[i] as char))
    }
}

pub proof fn lemma_quoted_end(b: Seq<u8>, i: int, acc: Seq<char>)
    requires
        0 <= i,
    ensures
        quoted(b, i, acc) matches Ok((v, n)) ==> i < n <= b.len(),
    decreases b.len() - i,
{
    if 0 <= i < b.len() {
        if b[i] == 92u8 {
            if i + 1 < b.len() {
                lemma_quoted_end(b, i + 2, acc.push(b[i + 1] as char));
            }
        } else if b[i] != 34u8 {
            lemma_quoted_end(b, i + 1, acc.push(b[i] as char));
        }
    }
}

pub open spec fn quoted_view(r: Result<(String, usize), KvError>) -> Result<(Seq<char>, int), KvError> {
    match r {
        Ok((s, n)) => Ok((s@, n as int)),
        Err(e) => Err(e),
    }
}

fn parse_quoted(b: &[u8], start: usize) -> (r: Result<(String, usize), KvError>)
    requires
        start <= b@.len(),
    ensures
        quoted_view(r) == quoted(b@, start as int, Seq::empty()),
{
    let mut buf = String::new();
    let mut i = start;
    while i < b.len()
        invariant
            start <= i <= b@.len(),
            quoted(b@, start as int, Seq::empty()) == quoted(b@, i as int, buf@),
        decreases b@.len() - i,
    {
        let c = b[i];
        if c == 92u8 {
            if i + 1 >= b.len() {
                return Err(KvError::InvalidEscape);
            }
            push_char(&mut buf, b[i + 1] as char);
            i += 2;
        } else if c == 34u8 {
            return Ok((buf, i + 1));
        } else {
            push_char(&mut buf, c as char);
            i += 1;
        }
    }
    Err(KvError::Unterminated)
}

/// Bytes read one character each.
pub open spec fn byte_chars(b: Seq<u8>) -> Seq<char> {
    b.map_values(|x: u8| x as char)
}

fn lowered_key(b: &[u8], lo: usize, hi: usize) -> (s: String)
    requires
        lo <= hi <= b@.len(),
    ensures
        s@ == lower_all(byte_chars(b@.subrange(lo as int, hi as int))),
{
    let mut s = String::new();
    let mut t = lo;
    while t < hi
        invariant
            lo <= t <= hi <= b@.len(),
            s@ == lower_all(byte_chars(b@.subrange(lo as int, t as int))),
        decreases hi - t,
    {
        push_char(&mut s, char_ascii_lower(b[t] as char));
        t += 1;
        assert(s@ =~= lower_all(byte_chars(b@.subrange(lo as int, t as int))));
    }
    s
}

/// The parameters of a Digest header from position `i` on, inserted into
/// `acc`; a later parameter replaces an earlier one of the same name.
pub open spec fn kv_from(b: Seq<u8>, i: int, acc: Seq<(Seq<char>, Seq<char>)>) -> Result<Seq<(Seq<char>, Seq<char>)>, KvError>
    decreases b.len() - i,
{
    let j = scan_end(b, i, Scan::Separator);
    if i < 0 || j >= b.len() {
        Ok(acc)
    } else {
        let ke = scan_end(b, j, Scan::Key);
        if ke <= j {
            Err(KvError::ExpectedKey)
        } else {
            let key = lower_all(byte_chars(b.subrange(j, ke)));
            let e1 = scan_end(b, ke, Scan::Space);
            if e1 < 0 || e1 >= b.len() || b[e1] != 61u8 {
                Err(KvError::ExpectedEq)
            } else {
                let v0 = scan_end(b, e1 + 1, Scan::Space);
                if v0 < 0 || v0 >= b.len() {
                    Err(KvError::ExpectedValue)
                } else if b[v0] == 34u8 {
                    match quoted(b, v0 + 1, Seq::empty()) {
                        Err(e) => Err(e),
                        Ok((v, next)) => if i < next <= b.len() {
                            kv_from(b, next, header_insert(acc, key, v))
                        } else {
                            Ok(acc)
                        },
                    }
                } else {
                    let ve = scan_end(b, v0, Scan::Unquoted);
                    let raw = b.subrange(v0, ve);
                    if !valid_utf8(raw) {
                        Err(KvError::NonUtf8Value)
                    } else if i < ve <= b.len() {
                        kv_from(b, ve, header_insert(acc, key, trim(decode_utf8(raw))))
                    } else {
                        Ok(acc)
                    }
                }
            }
        }
    }
}

/// The parameters of the list `s`.
pub open spec fn kv_list(s: Seq<char>) -> Result<Seq<(Seq<char>, Seq<char>)>, KvError> {
    kv_from(encode_utf8(s), 0, Seq::empty())
}

pub open spec fn params_view(r: Result<Vec<(String, String)>, KvError>) -> Result<Seq<(Seq<char>, Seq<char>)>, KvError> {
    match r {
        Ok(v) => Ok(headers_view(v@)),
        Err(e) => Err(e),
    }
}

/// Reads the `key=value` list of a Digest header. Names are lower-cased;
/// values are quoted strings or bare text up to the next comma.
#[verifier::rlimit(40)]
pub fn parse_kv_list(input: &str) -> (r: Result<Vec<(String, String)>, KvError>)
    ensures
        params_view(r) == kv_list(input@),
{
    let b = input.as_bytes();
    let n = b.len();
    let mut out: Vec<(String, String)> = Vec::new();
    let mut i: usize = 0;
    assert(headers_view(out@) =~= Seq::<(Seq<char>, Seq<char>)>::empty());
    loop
        invariant
            i <= n == b@.len(),
            b@ == encode_utf8(input@),
            kv_list(input@) == kv_from(b@, i as int, headers_view(out@)),
        decreases n - i,
    {
        let ghost acc = headers_view(out@);
        let j = scan(b, i, Scan::Separator);
        if j >= n {
            return Ok(out);
        }
        let ke = scan(b, j, Scan::Key);
        if ke == j {
            return Err(KvError::ExpectedKey);
        }
        let key = lowered_key(b, j, ke);
        let e1 = scan(b, ke, Scan::Space);
        if e1 >= n || b[e1] != 61u8 {
            return Err(KvError::ExpectedEq);
        }
        let v0 = scan(b, e1 + 1, Scan::Space);
        if v0 >= n {
            return Err(KvError::ExpectedValue);
        }
        if b[v0] == 34u8 {
            proof {
                lemma_quoted_end(b@, v0 + 1, Seq::empty());
            }
            match parse_quoted(b, v0 + 1) {
                Err(e) => {
                    return Err(e);
                },
                Ok((v, next)) => {
                    insert_header(&mut out, key, v);
                    i = next;
                },
            }
        } else {
            let ve = scan(b, v0, Scan::Unquoted);
            let raw = copy_range(b, v0, ve);
            match utf8_str(raw.as_slice()) {
                None => {
                    return Err(KvError::NonUtf8Value);
                },
                Some(text) => {
                    let cs = chars_of(text);
                    let t = trimmed(cs.as_slice());
                    let v = string_from_chars(t.as_slice());
                    insert_header(&mut out, key, v);
                    i = ve;
                },
            }
        }
    }
}


// =============================================================================
// Algorithms, quality of protection, errors
// =============================================================================

/// The hash algorithm of a Digest challenge.
#[derive(Debug, Clone, Copy, PartialEq, Eq, Structural)]
pub enum DigestAlgorithm {
    Md5,
    Md5Sess,
    Sha256,
    Sha256Sess,
}

/// The algorithm a header value names, ignoring ASCII case.
pub open spec fn algorithm_of(s: Seq<char>) -> Option<DigestAlgorithm> {
    if eq_ignore_case(s, "md5"@) {
        Some(DigestAlgorithm::Md5)
    } else if eq_ignore_case(s, "md5-sess"@) {
        Some(DigestAlgorithm::Md5Sess)
    } else if eq_ignore_case(s, "sha-256"@) {
        Some(DigestAlgorithm::Sha256)
    } else if eq_ignore_case(s, "sha-256-sess"@) {
        Some(DigestAlgorithm::Sha256Sess)
    } else {
        None
    }
}

pub open spec fn is_sess_alg(a: DigestAlgorithm) -> bool {
    a == DigestAlgorithm::Md5Sess || a == DigestAlgorithm::Sha256Sess
}

/// The number of hexadecimal digits of a response under `a`.
pub open spec fn response_hex_len(a: DigestAlgorithm) -> nat {
    match a {
        DigestAlgorithm::Md5 | DigestAlgorithm::Md5Sess => 32,
        DigestAlgorithm::Sha256 | DigestAlgorithm::Sha256Sess => 64,
    }
}

impl DigestAlgorithm {
    pub fn parse(s: &str) -> (r: Option<Self>)
        ensures
            r == algorithm_of(s@),
    {
        let cs = chars_of(s);
        if chars_eq_ignore_case(cs.as_slice(), "md5") {
            Some(DigestAlgorithm::Md5)
        } else if chars_eq_ignore_case(cs.as_slice(), "md5-sess") {
            Some(DigestAlgorithm::Md5Sess)
        } else if chars_eq_ignore_case(cs.as_slice(), "sha-256") {
            Some(DigestAlgorithm::Sha256)
        } else if chars_eq_ignore_case(cs.as_slice(), "sha-256-sess") {
            Some(DigestAlgorithm::Sha256Sess)
        } else {
            None
        }
    }

    pub fn is_sess(self) -> (r: bool)
        ensures
            r == is_sess_alg(self),
    {
        match self {
            DigestAlgorithm::Md5Sess | DigestAlgorithm::Sha256Sess => true,
            _ => false,
        }
    }

    fn response_hex_len(self) -> (r: usize)
        ensures
            r == response_hex_len(self),
    {
        match self {
            DigestAlgorithm::Md5 | DigestAlgorithm::Md5Sess => 32,
            DigestAlgorithm::Sha256 | DigestAlgorithm::Sha256Sess => 64,
        }
    }
}

/// The quality of protection of a Digest challenge.
#[derive(Debug, Clone, Copy, PartialEq, Eq, Structural)]
pub enum DigestQop {
    Auth,
    AuthInt,
}

pub open spec fn qop_of(s: Seq<char>) -> Option<DigestQop> {
    if eq_ignore_case(s, "auth"@) {
        Some(DigestQop::Auth)
    } else if eq_ignore_case(s, "auth-int"@) {
        Some(DigestQop::AuthInt)
    } else {
        None
    }
}

pub open spec fn qop_name(q: DigestQop) -> Seq<char> {
    match q {
        DigestQop::Auth => "auth"@,
        DigestQop::AuthInt => "auth-int"@,
    }
}

impl DigestQop {
    pub fn parse(s: &str) -> (r: Option<Self>)
        ensures
            r == qop_of(s@),
    {
        let cs = chars_of(s);
        if chars_eq_ignore_case(cs.as_slice(), "auth") {
            Some(DigestQop::Auth)
        } else if chars_eq_ignore_case(cs.as_slice(), "auth-int") {
            Some(DigestQop::AuthInt)
        } else {
            None
        }
    }

    pub fn as_str(self) -> (s: &'static str)
        ensures
            s@ == qop_name(self),
    {
        match self {
            DigestQop::Auth => "auth",
            DigestQop::AuthInt => "auth-int",
        }
    }
}

/// Why a Digest header was refused.
#[derive(Debug, Clone, PartialEq, Eq)]
pub enum DigestAuthErrorKind {
    MissingHeader,
    InvalidUtf8,
    InvalidScheme,
    InvalidFormat(&'static str),
    MissingField(&'static str),
    UnsupportedQop,
    UnsupportedAlgorithm,
    InvalidNc,
    InvalidResponseHex,
}

/// The mathematical form of a [`DigestAuthErrorKind`].
pub enum DigestErrorView {
    MissingHeader,
    InvalidUtf8,
    InvalidScheme,
    InvalidFormat(Seq<char>),
    MissingField(Seq<char>),
    UnsupportedQop,
    UnsupportedAlgorithm,
    InvalidNc,
    InvalidResponseHex,
}

impl View for DigestAuthErrorKind {
    type V = DigestErrorView;

    open spec fn view(&self) -> DigestErrorView {
        match self {
            DigestAuthErrorKind::MissingHeader => DigestErrorView::MissingHeader,
            DigestAuthErrorKind::InvalidUtf8 => DigestErrorView::InvalidUtf8,
            DigestAuthErrorKind::InvalidScheme => DigestErrorView::InvalidScheme,
            DigestAuthErrorKind::InvalidFormat(m) => DigestErrorView::InvalidFormat(m@),
            DigestAuthErrorKind::MissingField(k) => DigestErrorView::MissingField(k@),
            DigestAuthErrorKind::UnsupportedQop => DigestErrorView::UnsupportedQop,
            DigestAuthErrorKind::UnsupportedAlgorithm => DigestErrorView::UnsupportedAlgorithm,
            DigestAuthErrorKind::InvalidNc => DigestErrorView::InvalidNc,
            DigestAuthErrorKind::InvalidResponseHex => DigestErrorView::InvalidResponseHex,
        }
    }
}

/// A refused Digest header.
#[derive(Debug, Clone)]
pub struct DigestAuthError {
    pub kind: DigestAuthErrorKind,
}

/// The message of an error.
pub open spec fn digest_error_message(k: DigestErrorView) -> Seq<char> {
    match k {
        DigestErrorView::MissingHeader => "Missing Authorization header"@,
        DigestErrorView::InvalidUtf8 => "Invalid Authorization header encoding"@,
        DigestErrorView::InvalidScheme => "Authorization header must use Digest scheme"@,
        DigestErrorView::InvalidFormat(m) => "Invalid Digest header: "@ + m,
        DigestErrorView::MissingField(f) => "Digest header missing field: "@ + f,
        DigestErrorView::UnsupportedQop => "Unsupported Digest qop"@,
        DigestErrorView::UnsupportedAlgorithm => "Unsupported Digest algorithm"@,
        DigestErrorView::InvalidNc => "Invalid Digest nc value"@,
        DigestErrorView::InvalidResponseHex => "Invalid Digest response value"@,
    }
}

impl DigestAuthError {
    fn of(kind: DigestAuthErrorKind) -> (e: Self)
        ensures
            e.kind == kind,
    {
        DigestAuthError { kind }
    }

    /// The error's message.
    pub fn to_string(&self) -> (s: String)
        ensures
            s@ == digest_error_message(self.kind@),
    {
        match &self.kind {
            DigestAuthErrorKind::MissingHeader => String::from_str("Missing Authorization header"),
            DigestAuthErrorKind::InvalidUtf8 => String::from_str("Invalid Authorization header encoding"),
            DigestAuthErrorKind::InvalidScheme => String::from_str("Authorization header must use Digest scheme"),
            DigestAuthErrorKind::InvalidFormat(m) => {
                let mut s = String::from_str("Invalid Digest header: ");
                push_str(&mut s, m);
                s
            },
            DigestAuthErrorKind::MissingField(k) => {
                let mut s = String::from_str("Digest header missing field: ");
                push_str(&mut s, k);
                s
            },
            DigestAuthErrorKind::UnsupportedQop => String::from_str("Unsupported Digest qop"),
            DigestAuthErrorKind::UnsupportedAlgorithm => String::from_str("Unsupported Digest algorithm"),
            DigestAuthErrorKind::InvalidNc => String::from_str("Invalid Digest nc value"),
            DigestAuthErrorKind::InvalidResponseHex => String::from_str("Invalid Digest response value"),
        }
    }
}

// =============================================================================
// The parsed header
// =============================================================================

/// The credentials of an `Authorization: Digest ...` header.
#[derive(Debug, Clone, PartialEq, Eq)]
pub struct DigestAuth {
    pub username: String,
    pub realm: Option<String>,
    pub nonce: String,
    pub uri: String,
    pub response: String,
    pub opaque: Option<String>,
    pub algorithm: DigestAlgorithm,
    pub qop: Option<DigestQop>,
    pub nc: Option<String>,
    pub cnonce: Option<String>,
}

/// The mathematical form of a [`DigestAuth`].
pub struct DigestAuthView {
    pub username: Seq<char>,
    pub realm: Option<Seq<char>>,
    pub nonce: Seq<char>,
    pub uri: Seq<char>,
    pub response: Seq<char>,
    pub opaque: Option<Seq<char>>,
    pub algorithm: DigestAlgorithm,
    pub qop: Option<DigestQop>,
    pub nc: Option<Seq<char>>,
    pub cnonce: Option<Seq<char>>,
}

pub open spec fn opt_view(o: Option<String>) -> Option<Seq<char>> {
    match o {
        Some(s) => Some(s@),
        None => None,
    }
}

impl View for DigestAuth {
    type V = DigestAuthView;

    open spec fn view(&self) -> DigestAuthView {
        DigestAuthView {
            username: self.username@,
            realm: opt_view(self.realm),
            nonce: self.nonce@,
            uri: self.uri@,
            response: self.response@,
            opaque: opt_view(self.opaque),
            algorithm: self.algorithm,
            qop: self.qop,
            nc: opt_view(self.nc),
            cnonce: opt_view(self.cnonce),
        }
    }
}

/// The position of the first whitespace character at or after `i`.
pub open spec fn find_space(h: Seq<char>, i: int) -> Option<int>
    decreases h.len() - i,
{
    if i < 0 || i >= h.len() {
        None
    } else if is_space(h[i]) {
        Some(i)
    } else {
        find_space(h, i + 1)
    }
}

/// The scheme word of a header value and what follows the whitespace after
/// it (`splitn(2, char::is_whitespace)`).
pub open spec fn split_scheme(h: Seq<char>) -> (Seq<char>, Seq<char>) {
    match find_space(h, 0) {
        Some(k) => (h.take(k), h.skip(k + 1)),
        None => (h, Seq::empty()),
    }
}

/// A nonempty string of hexadecimal digits of length `n`.
pub open spec fn hex_of_len(s: Seq<char>, n: nat) -> bool {
    s.len() == n && n > 0 && all_hex(s)
}

/// The first problem with the parameters of a Digest header, in the order
/// they are checked.
pub open spec fn params_error(ps: Seq<(Seq<char>, Seq<char>)>) -> Option<DigestErrorView> {
    let alg = match first_value(ps, "algorithm"@) {
        Some(v) => algorithm_of(v),
        None => Some(DigestAlgorithm::Md5),
    };
    let qop = match first_value(ps, "qop"@) {
        Some(v) => qop_of(v),
        None => None,
    };
    if first_value(ps, "username"@) is None {
        Some(DigestErrorView::MissingField("username"@))
    } else if first_value(ps, "nonce"@) is None {
        Some(DigestErrorView::MissingField("nonce"@))
    } else if first_value(ps, "uri"@) is None {
        Some(DigestErrorView::MissingField("uri"@))
    } else if first_value(ps, "response"@) is None {
        Some(DigestErrorView::MissingField("response"@))
    } else if alg is None {
        Some(DigestErrorView::UnsupportedAlgorithm)
    } else if !hex_of_len(first_value(ps, "response"@)->0, response_hex_len(alg->0)) {
        Some(DigestErrorView::InvalidResponseHex)
    } else if first_value(ps, "qop"@) is Some && qop is None {
        Some(DigestErrorView::UnsupportedQop)
    } else if first_value(ps, "nc"@) is Some && !hex_of_len(first_value(ps, "nc"@)->0, 8) {
        Some(DigestErrorView::InvalidNc)
    } else if qop is Some && first_value(ps, "nc"@) is None {
        Some(DigestErrorView::MissingField("nc"@))
    } else if qop is Some && first_value(ps, "cnonce"@) is None {
        Some(DigestErrorView::MissingField("cnonce"@))
    } else {
        None
    }
}

pub open spec fn opt_lower(o: Option<Seq<char>>) -> Option<Seq<char>> {
    match o {
        Some(s) => Some(lower_all(s)),
        None => None,
    }
}

/// The credentials that well-formed parameters give.
pub open spec fn params_auth(ps: Seq<(Seq<char>, Seq<char>)>) -> DigestAuthView {
    DigestAuthView {
        username: first_value(ps, "username"@)->0,
        realm: first_value(ps, "realm"@),
        nonce: first_value(ps, "nonce"@)->0,
        uri: first_value(ps, "uri"@)->0,
        response: lower_all(first_value(ps, "response"@)->0),
        opaque: first_value(ps, "opaque"@),
        algorithm: match first_value(ps, "algorithm"@) {
            Some(v) => algorithm_of(v)->0,
            None => DigestAlgorithm::Md5,
        },
        qop: match first_value(ps, "qop"@) {
            Some(v) => qop_of(v),
            None => None,
        },
        nc: opt_lower(first_value(ps, "nc"@)),
        cnonce: first_value(ps, "cnonce"@),
    }
}

/// What parsing an `Authorization` header value gives.
pub open spec fn digest_parse(h: Seq<char>) -> Result<DigestAuthView, DigestErrorView> {
    let (scheme, rest0) = split_scheme(h);
    let rest = trim(rest0);
    if !eq_ignore_case(scheme, "digest"@) {
        Err(DigestErrorView::InvalidScheme)
    } else if rest.len() == 0 {
        Err(DigestErrorView::InvalidFormat("missing parameters"@))
    } else {
        match kv_list(rest) {
            Err(e) => Err(DigestErrorView::InvalidFormat(kv_error_message(e))),
            Ok(ps) => match params_error(ps) {
                Some(e) => Err(e),
                None => Ok(params_auth(ps)),
            },
        }
    }
}

/// A string of `n` lower-case hexadecimal digits.
pub open spec fn lower_hex_of_len(s: Seq<char>, n: nat) -> bool {
    s.len() == n && forall|i: int| 0 <= i < s.len() ==> is_lower_hex_char(#[trigger] s[i])
}

proof fn lemma_lower_hex(s: Seq<char>, n: nat)
    requires
        hex_of_len(s, n),
    ensures
        lower_hex_of_len(lower_all(s), n),
{
    let l = lower_all(s);
    assert forall|i: int| 0 <= i < l.len() implies is_lower_hex_char(#[trigger] l[i]) by {
        let c = s[i];
        assert(hex_digit_value(c) is Some);
        assert(l[i] == ascii_lower(c));
        if 'A' <= c && c <= 'F' {
            assert((c as u32) + 32 <= 'f' as u32);
            assert((c as u32) + 32 >= 'a' as u32);
        }
    }
}

/// What a successfully parsed Digest header always holds: its scheme is
/// `Digest` in any case, the response is lower-case hexadecimal of the
/// length the algorithm gives (32 for MD5, 64 for SHA-256), the algorithm
/// is MD5 when none is named, a `qop` comes with `nc` and `cnonce`, and an
/// `nc` is eight lower-case hexadecimal digits.
pub proof fn lemma_digest_parse_ok(h: Seq<char>)
    requires
        digest_parse(h) is Ok,
    ensures
        ({
            let a = digest_parse(h)->Ok_0;
            let ps = kv_list(trim(split_scheme(h).1))->Ok_0;
            &&& eq_ignore_case(split_scheme(h).0, "digest"@)
            &&& lower_hex_of_len(a.response, response_hex_len(a.algorithm))
            &&& first_value(ps, "algorithm"@) is None ==> a.algorithm == DigestAlgorithm::Md5
            &&& a.qop is Some ==> a.nc is Some && a.cnonce is Some
            &&& a.nc matches Some(n) ==> lower_hex_of_len(n, 8)
        }),
{
    let ps = kv_list(trim(split_scheme(h).1))->Ok_0;
    let a = params_auth(ps);
    assert(digest_parse(h) == Ok::<DigestAuthView, DigestErrorView>(a));
    lemma_lower_hex(first_value(ps, "response"@)->0, response_hex_len(a.algorithm));
    if let Some(n) = first_value(ps, "nc"@) {
        lemma_lower_hex(n, 8);
    }
}

pub open spec fn auth_result_view(r: Result<DigestAuth, DigestAuthError>) -> Result<DigestAuthView, DigestErrorView> {
    match r {
        Ok(d) => Ok(d@),
        Err(e) => Err(e.kind@),
    }
}

fn first_space(cs: &[char]) -> (r: Option<usize>)
    ensures
        match r {
            Some(k) => find_space(cs@, 0) == Some(k as int) && k < cs@.len(),
            None => find_space(cs@, 0) is None,
        },
{
    let mut i: usize = 0;
    while i < cs.len()
        invariant
            i <= cs@.len(),
            find_space(cs@, 0) == find_space(cs@, i as int),
        decreases cs@.len() - i,
    {
        if char_is_space(cs[i]) {
            return Some(i);
        }
        i += 1;
    }
    None
}

/// `s` is a nonempty string of `n` hexadecimal digits.
fn is_hex_of_len(s: &str, n: usize) -> (r: bool)
    ensures
        r == hex_of_len(s@, n as nat),
{
    let cs = chars_of(s);
    if cs.len() != n || n == 0 {
        return false;
    }
    let mut i: usize = 0;
    while i < cs.len()
        invariant
            i <= cs@.len(),
            cs@ == s@,
            forall|j: int| 0 <= j < i ==> (#[trigger] hex_digit_value(cs@[j])) is Some,
        decreases cs@.len() - i,
    {
        if hex_digit(cs[i]).is_none() {
            assert(!all_hex(s@));
            return false;
        }
        i += 1;
    }
    true
}

fn ascii_lowercase(s: &str) -> (r: String)
    ensures
        r@ == lower_all(s@),
{
    let cs = chars_of(s);
    let l = lower_chars(cs.as_slice());
    string_from_chars(l.as_slice())
}

impl DigestAuth {
    /// Parses an `Authorization` header value of the form `Digest ...`.
    #[verifier::rlimit(60)]
    pub fn parse(header_value: &str) -> (r: Result<Self, DigestAuthError>)
        ensures
            auth_result_view(r) == digest_parse(header_value@),
    {
        let cs = chars_of(header_value);
        let n = cs.len();
        let (scheme, rest0) = match first_space(cs.as_slice()) {
            Some(k) => (slice_chars(cs.as_slice(), 0, k), slice_chars(cs.as_slice(), k + 1, n)),
            None => (slice_chars(cs.as_slice(), 0, n), Vec::new()),
        };
        assert(scheme@ == split_scheme(header_value@).0 && rest0@ == split_scheme(header_value@).1);
        if !chars_eq_ignore_case(scheme.as_slice(), "digest") {
            return Err(DigestAuthError::of(DigestAuthErrorKind::InvalidScheme));
        }
        let rest_chars = trimmed(rest0.as_slice());
        if rest_chars.len() == 0 {
            return Err(DigestAuthError::of(DigestAuthErrorKind::InvalidFormat("missing parameters")));
        }
        let rest = string_from_chars(rest_chars.as_slice());
        let params = match parse_kv_list(rest.as_str()) {
            Ok(p) => p,
            Err(e) => {
                return Err(DigestAuthError::of(DigestAuthErrorKind::InvalidFormat(e.message())));
            },
        };
        let ghost ps = headers_view(params@);
        let username = match header_get(&params, "username") {
            Some(v) => v,
            None => {
                return Err(DigestAuthError::of(DigestAuthErrorKind::MissingField("username")));
            },
        };
        let nonce = match header_get(&params, "nonce") {
            Some(v) => v,
            None => {
                return Err(DigestAuthError::of(DigestAuthErrorKind::MissingField("nonce")));
            },
        };
        let uri = match header_get(&params, "uri") {
            Some(v) => v,
            None => {
                return Err(DigestAuthError::of(DigestAuthErrorKind::MissingField("uri")));
            },
        };
        let response = match header_get(&params, "response") {
            Some(v) => v,
            None => {
                return Err(DigestAuthError::of(DigestAuthErrorKind::MissingField("response")));
            },
        };
        let realm = header_get(&params, "realm");
        let opaque = header_get(&params, "opaque");
        let algorithm = match header_get(&params, "algorithm") {
            Some(v) => match DigestAlgorithm::parse(v.as_str()) {
                Some(a) => a,
                None => {
                    return Err(DigestAuthError::of(DigestAuthErrorKind::UnsupportedAlgorithm));
                },
            },
            None => DigestAlgorithm::Md5,
        };
        if !is_hex_of_len(response.as_str(), algorithm.response_hex_len()) {
            return Err(DigestAuthError::of(DigestAuthErrorKind::InvalidResponseHex));
        }
        let qop = match header_get(&params, "qop") {
            Some(v) => match DigestQop::parse(v.as_str()) {
                Some(q) => Some(q),
                None => {
                    return Err(DigestAuthError::of(DigestAuthErrorKind::UnsupportedQop));
                },
            },
            None => None,
        };
        let nc = match header_get(&params, "nc") {
            Some(v) => {
                let l = ascii_lowercase(v.as_str());
                if !is_hex_of_len(v.as_str(), 8) {
                    return Err(DigestAuthError::of(DigestAuthErrorKind::InvalidNc));
                }
                Some(l)
            },
            None => None,
        };
        let cnonce = header_get(&params, "cnonce");
        if qop.is_some() {
            if nc.is_none() {
                return Err(DigestAuthError::of(DigestAuthErrorKind::MissingField("nc")));
            }
            if cnonce.is_none() {
                return Err(DigestAuthError::of(DigestAuthErrorKind::MissingField("cnonce")));
            }
        }
        let response = ascii_lowercase(response.as_str());
        Ok(DigestAuth { username, realm, nonce, uri, response, opaque, algorithm, qop, nc, cnonce })
    }
}


// =============================================================================
// Expected response and verification
// =============================================================================

/// Bytes as lowercase hexadecimal, two digits each.
pub open spec fn hex_of(b: Seq<u8>) -> Seq<char>
    decreases b.len(),
{
    if b.len() == 0 {
        Seq::empty()
    } else {
        hex_of(b.drop_last()) + hex2(b.last())
    }
}

/// Bytes as lowercase hexadecimal, two digits each.
pub fn hex_lower(bytes: &[u8]) -> (s: String)
    ensures
        s@ == hex_of(bytes@),
{
    let mut s = String::new();
    let mut i: usize = 0;
    while i < bytes.len()
        invariant
            i <= bytes@.len(),
            s@ == hex_of(bytes@.take(i as int)),
        decreases bytes@.len() - i,
    {
        push_hex2(&mut s, bytes[i]);
        i += 1;
        assert(bytes@.take(i as int).drop_last() =~= bytes@.take(i - 1));
    }
    assert(bytes@.take(bytes@.len() as int) =~= bytes@);
    s
}

/// The digest of `data` under the hash of `alg`.
pub open spec fn digest_bytes(alg: DigestAlgorithm, data: Seq<u8>) -> Seq<u8> {
    match alg {
        DigestAlgorithm::Md5 | DigestAlgorithm::Md5Sess => md5_digest(data),
        DigestAlgorithm::Sha256 | DigestAlgorithm::Sha256Sess => sha256_digest(data),
    }
}

/// The hexadecimal hash of the UTF-8 text `s`.
#[verifier::opaque]
pub open spec fn hash_hex(alg: DigestAlgorithm, s: Seq<char>) -> Seq<char> {
    hex_of(digest_bytes(alg, encode_utf8(s)))
}

fn hash_hex_of(alg: DigestAlgorithm, s: &String) -> (r: String)
    ensures
        r@ == hash_hex(alg, s@),
{
    reveal(hash_hex);
    let bytes = s.as_str().as_bytes();
    match alg {
        DigestAlgorithm::Md5 | DigestAlgorithm::Md5Sess => {
            let d = md5(bytes);
            hex_lower(&d)
        },
        DigestAlgorithm::Sha256 | DigestAlgorithm::Sha256Sess => {
            let d = sha256(bytes);
            hex_lower(&d)
        },
    }
}

/// `a:b:c`
pub open spec fn colon3(a: Seq<char>, b: Seq<char>, c: Seq<char>) -> Seq<char> {
    a + ":"@ + b + ":"@ + c
}

/// `a:b:c:d:e:f`
pub open spec fn colon6(a: Seq<char>, b: Seq<char>, c: Seq<char>, d: Seq<char>, e: Seq<char>, f: Seq<char>) -> Seq<char> {
    a + ":"@ + b + ":"@ + c + ":"@ + d + ":"@ + e + ":"@ + f
}

fn join6(a: &str, b: &str, c: &str, d: &str, e: &str, f: &str) -> (s: String)
    ensures
        s@ == colon6(a@, b@, c@, d@, e@, f@),
{
    let mut s = String::new();
    push_str(&mut s, a);
    push_str(&mut s, ":");
    push_str(&mut s, b);
    push_str(&mut s, ":");
    push_str(&mut s, c);
    push_str(&mut s, ":");
    push_str(&mut s, d);
    push_str(&mut s, ":");
    push_str(&mut s, e);
    push_str(&mut s, ":");
    push_str(&mut s, f);
    assert(s@ =~= colon6(a@, b@, c@, d@, e@, f@));
    s
}

fn join3(a: &str, b: &str, c: &str) -> (s: String)
    ensures
        s@ == colon3(a@, b@, c@),
{
    let mut s = String::new();
    push_str(&mut s, a);
    push_str(&mut s, ":");
    push_str(&mut s, b);
    push_str(&mut s, ":");
    push_str(&mut s, c);
    assert(s@ =~= colon3(a@, b@, c@));
    s
}

/// What `compute_expected_response` gives for these credentials.
pub open spec fn expected_response(d: DigestAuthView, method: Method, realm: Seq<char>, password: Seq<char>) -> Result<Seq<char>, DigestErrorView> {
    let alg = d.algorithm;
    if d.qop == Some(DigestQop::AuthInt) {
        Err(DigestErrorView::UnsupportedQop)
    } else if is_sess_alg(alg) && d.cnonce is None {
        Err(DigestErrorView::MissingField("cnonce"@))
    } else {
        let ha1_0 = hash_hex(alg, colon3(d.username, realm, password));
        let ha1 = if is_sess_alg(alg) { hash_hex(alg, colon3(ha1_0, d.nonce, d.cnonce->0)) } else { ha1_0 };
        let ha2 = hash_hex(alg, method_name(method) + ":"@ + d.uri);
        match d.qop {
            Some(_) => if d.nc is None {
                Err(DigestErrorView::MissingField("nc"@))
            } else if d.cnonce is None {
                Err(DigestErrorView::MissingField("cnonce"@))
            } else {
                Ok(hash_hex(alg, colon6(ha1, d.nonce, d.nc->0, d.cnonce->0, "auth"@, ha2)))
            },
            None => Ok(hash_hex(alg, colon3(ha1, d.nonce, ha2))),
        }
    }
}


pub open spec fn text_result_view(r: Result<String, DigestAuthError>) -> Result<Seq<char>, DigestErrorView> {
    match r {
        Ok(s) => Ok(s@),
        Err(e) => Err(e.kind@),
    }
}

pub open spec fn bool_result_view(r: Result<bool, DigestAuthError>) -> Result<bool, DigestErrorView> {
    match r {
        Ok(b) => Ok(b),
        Err(e) => Err(e.kind@),
    }
}

/// Compares two byte strings in time that depends on their lengths only.
pub fn constant_time_eq(a: &[u8], b: &[u8]) -> (r: bool)
    ensures
        r == (a@ == b@),
{
    if a.len() != b.len() {
        return false;
    }
    let mut acc: u8 = 0;
    let mut i: usize = 0;
    while i < a.len()
        invariant
            i <= a@.len() == b@.len(),
            (acc == 0) == (forall|j: int| 0 <= j < i ==> a@[j] == b@[j]),
        decreases a@.len() - i,
    {
        let x = a[i];
        let y = b[i];
        assert(((acc | (x ^ y)) == 0) == (acc == 0 && x == y)) by (bit_vector);
        acc = acc | (x ^ y);
        i += 1;
    }
    if acc == 0 {
        assert(a@ =~= b@);
    }
    acc == 0
}

impl DigestAuth {
    /// Computes the expected `response=` value for this challenge, in
    /// lowercase hexadecimal. Supports MD5, MD5-sess, SHA-256 and
    /// SHA-256-sess, with qop `auth` or none; `auth-int` is refused.
    #[verifier::rlimit(60)]
    pub fn compute_expected_response(&self, method: Method, realm: &str, password: &str) -> (r: Result<String, DigestAuthError>)
        ensures
            text_result_view(r) == expected_response(self@, method, realm@, password@),
    {
        let qop = match self.qop {
            Some(DigestQop::Auth) => true,
            Some(DigestQop::AuthInt) => {
                return Err(DigestAuthError::of(DigestAuthErrorKind::UnsupportedQop));
            },
            None => false,
        };
        let ha1_0 = hash_hex_of(self.algorithm, &join3(self.username.as_str(), realm, password));
        let ha1 = if self.algorithm.is_sess() {
            match &self.cnonce {
                Some(cnonce) => hash_hex_of(self.algorithm, &join3(ha1_0.as_str(), self.nonce.as_str(), cnonce.as_str())),
                None => {
                    return Err(DigestAuthError::of(DigestAuthErrorKind::MissingField("cnonce")));
                },
            }
        } else {
            ha1_0
        };
        let mut a2 = String::new();
        push_str(&mut a2, method.as_str());
        push_str(&mut a2, ":");
        push_str(&mut a2, self.uri.as_str());
        let ha2 = hash_hex_of(self.algorithm, &a2);
        if qop {
            let nc = match &self.nc {
                Some(nc) => nc,
                None => {
                    return Err(DigestAuthError::of(DigestAuthErrorKind::MissingField("nc")));
                },
            };
            let cnonce = match &self.cnonce {
                Some(c) => c,
                None => {
                    return Err(DigestAuthError::of(DigestAuthErrorKind::MissingField("cnonce")));
                },
            };
            let text = join6(ha1.as_str(), self.nonce.as_str(), nc.as_str(), cnonce.as_str(), "auth", ha2.as_str());
            Ok(hash_hex_of(self.algorithm, &text))
        } else {
            Ok(hash_hex_of(self.algorithm, &join3(ha1.as_str(), self.nonce.as_str(), ha2.as_str())))
        }
    }

    /// Checks `response=` against the expected value, comparing in time that
    /// does not depend on where they differ.
    pub fn verify(&self, method: Method, realm: &str, password: &str) -> (r: Result<bool, DigestAuthError>)
        ensures
            bool_result_view(r) == (match expected_response(self@, method, realm@, password@) {
                Ok(e) => Ok(e == self@.response),
                Err(k) => Err(k),
            }),
    {
        let expected = match self.compute_expected_response(method, realm, password) {
            Ok(e) => e,
            Err(e) => {
                return Err(e);
            },
        };
        let same = constant_time_eq(expected.as_str().as_bytes(), self.response.as_str().as_bytes());
        proof {
            encode_utf8_decode_utf8(expected@);
            encode_utf8_decode_utf8(self.response@);
        }
        Ok(same)
    }

    /// Checks the credentials against a challenge: the nonce must be the
    /// challenge's, and a realm in the header must be the challenge's.
    pub fn verify_for_challenge(&self, method: Method, realm: &str, nonce: &str, password: &str) -> (r: Result<bool, DigestAuthError>)
        ensures
            bool_result_view(r) == (if self@.nonce != nonce@ {
                Ok(false)
            } else if self@.realm is Some && self@.realm->0 != realm@ {
                Ok(false)
            } else {
                match expected_response(self@, method, realm@, password@) {
                    Ok(e) => Ok(e == self@.response),
                    Err(k) => Err(k),
                }
            }),
    {
        if !crate::text::str_eq(self.nonce.as_str(), nonce) {
            return Ok(false);
        }
        if let Some(header_realm) = &self.realm {
            if !crate::text::str_eq(header_realm.as_str(), realm) {
                return Ok(false);
            }
        }
        self.verify(method, realm, password)
    }
}


// ---------------------------------------------------------------------------
// Extraction from a request, and the refusal response
// ---------------------------------------------------------------------------

/// How `serde_json` writes a character inside a JSON string: `"` and `\`
/// behind a backslash, backspace, tab, line feed, form feed and carriage
/// return as `\b`, `\t`, `\n`, `\f`, `\r`, the other control characters
/// below U+0020 as `\u00` and two lower-case hexadecimal digits, every other
/// character as itself.
pub open spec fn json_escape_char(c: char) -> Seq<char> {
    if c == '"' {
        seq!['\\', '"']
    } else if c == '\\' {
        seq!['\\', '\\']
    } else if c == '\u{8}' {
        seq!['\\', 'b']
    } else if c == '\t' {
        seq!['\\', 't']
    } else if c == '\n' {
        seq!['\\', 'n']
    } else if c == '\u{c}' {
        seq!['\\', 'f']
    } else if c == '\r' {
        seq!['\\', 'r']
    } else if (c as u32) < 32 {
        seq!['\\', 'u', '0', '0'] + hex2((c as u32) as u8)
    } else {
        seq![c]
    }
}

/// The characters of `s`, each written as inside a JSON string.
pub open spec fn json_escaped(s: Seq<char>) -> Seq<char>
    decreases s.len(),
{
    if s.len() == 0 {
        Seq::empty()
    } else {
        json_escaped(s.drop_last()) + json_escape_char(s.last())
    }
}

/// What `serde_json` writes, in its compact form, for the object with the
/// single entry `key: value`, both strings.
pub open spec fn json_object_text(key: Seq<char>, value: Seq<char>) -> Seq<char> {
    "{\""@ + json_escaped(key) + "\":\""@ + json_escaped(value) + "\"}"@
}

/// `serde_json::Value::to_string` on the JSON object `{key: value}` built
/// from two strings: the compact form, each string between quotes with the
/// escapes of `json_escape_char`.
#[verifier::external_body]
fn json_string_object(key: &str, value: &str) -> (s: String)
    ensures
        s@ == json_object_text(key@, value@),
{
    let mut m = serde_json::Map::new();
    m.insert(key.to_string(), serde_json::Value::String(value.to_string()));
    serde_json::Value::Object(m).to_string()
}

/// The `detail` of the refusal response: missing credentials, or invalid
/// ones.
pub open spec fn refusal_detail(k: DigestErrorView) -> Seq<char> {
    match k {
        DigestErrorView::MissingHeader => "Not authenticated"@,
        _ => "Invalid authentication credentials"@,
    }
}

/// The challenge sent with a refusal.
pub open spec fn digest_challenge() -> Seq<char> {
    "Digest realm=\"api\", qop=\"auth\", algorithm=MD5"@
}

impl DigestAuthError {
    /// A `401 Unauthorized` response with a Digest challenge and a JSON body
    /// `{"detail": ...}`.
    pub fn into_response(self) -> (r: crate::response::Response)
        ensures
            r.status == 401,
            crate::response::header_pairs(r.headers@) == seq![
                ("www-authenticate"@, encode_utf8(digest_challenge())),
                ("content-type"@, encode_utf8("application/json"@)),
            ],
            r.body matches crate::response::ResponseBody::Bytes(b) && b@ == encode_utf8(
                json_object_text("detail"@, refusal_detail(self.kind@)),
            ),
    {
        let detail = match self.kind {
            DigestAuthErrorKind::MissingHeader => "Not authenticated",
            _ => "Invalid authentication credentials",
        };
        let body = json_string_object("detail", detail);
        let challenge = "Digest realm=\"api\", qop=\"auth\", algorithm=MD5";
        let json_type = "application/json";
        let r = crate::response::Response::with_status(401).header(
            "www-authenticate",
            vstd::slice::slice_to_vec(challenge.as_bytes()),
        ).header("content-type", vstd::slice::slice_to_vec(json_type.as_bytes())).body(
            crate::response::ResponseBody::Bytes(vstd::slice::slice_to_vec(body.as_str().as_bytes())),
        );
        assert(crate::response::header_pairs(r.headers@) =~= seq![
            ("www-authenticate"@, encode_utf8(digest_challenge())),
            ("content-type"@, encode_utf8("application/json"@)),
        ]);
        r
    }
}

impl DigestAuth {
    /// The credentials of a request, from its `Authorization` header value:
    /// refused when the header is missing or not UTF-8, then parsed.
    pub fn from_request(authorization: Option<&[u8]>) -> (r: Result<Self, DigestAuthError>)
        ensures
            match authorization {
                None => auth_result_view(r) == Err::<DigestAuthView, DigestErrorView>(DigestErrorView::MissingHeader),
                Some(b) => if valid_utf8(b@) {
                    auth_result_view(r) == digest_parse(decode_utf8(b@))
                } else {
                    auth_result_view(r) == Err::<DigestAuthView, DigestErrorView>(DigestErrorView::InvalidUtf8)
                },
            },
    {
        match authorization {
            None => Err(DigestAuthError::of(DigestAuthErrorKind::MissingHeader)),
            Some(b) => match utf8_str(b) {
                Some(text) => Self::parse(text),
                None => Err(DigestAuthError::of(DigestAuthErrorKind::InvalidUtf8)),
            },
        }
    }
}

} // verus!

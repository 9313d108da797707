//! Request body reading: Content-Length bodies, chunked transfer encoding,
//! size limits, and the decision logic of the streaming readers.
use vstd::prelude::*;
use vstd::utf8::*;
use vstd::math::min;
use crate::scan::{copy_range, crlf_at, extend_from_range, find_byte, find_byte_from, find_crlf, find_crlf_from, lemma_find_crlf_bounds, lemma_find_byte_bounds, lemma_find_crlf_first};
use crate::text::{chars_of, decimal, parse_hex_range, parse_hex_usize, push_decimal, push_str, trim, trim_bounds, utf8_str};

verus! {

/// Default maximum body size (1MB).
pub const DEFAULT_MAX_BODY_SIZE: usize = 1048576;

/// Default threshold above which bodies are streamed (64KB).
pub const DEFAULT_STREAMING_THRESHOLD: usize = 65536;

/// Largest single chunk accepted in chunked encoding (16MB).
pub const MAX_SINGLE_CHUNK: usize = 16777216;

/// Configuration for body reading.
#[derive(Debug, Clone, Copy, PartialEq, Eq, Structural)]
pub struct BodyConfig {
    max_size: usize,
    initial_capacity: usize,
}

/// The settings of a [`BodyConfig`].
pub struct BodyConfigView {
    pub max_size: usize,
    pub initial_capacity: usize,
}

impl View for BodyConfig {
    type V = BodyConfigView;

    closed spec fn view(&self) -> BodyConfigView {
        BodyConfigView { max_size: self.max_size, initial_capacity: self.initial_capacity }
    }
}

impl Default for BodyConfig {
    fn default() -> (c: Self)
        ensures
            c@.max_size == DEFAULT_MAX_BODY_SIZE,
            c@.initial_capacity == 4096,
    {
        BodyConfig { max_size: DEFAULT_MAX_BODY_SIZE, initial_capacity: 4096 }
    }
}

impl BodyConfig {
    /// A configuration with the default settings.
    pub fn new() -> (c: Self)
        ensures
            c@.max_size == DEFAULT_MAX_BODY_SIZE,
            c@.initial_capacity == 4096,
    {
        BodyConfig { max_size: DEFAULT_MAX_BODY_SIZE, initial_capacity: 4096 }
    }

    /// Sets the maximum body size.
    pub fn with_max_size(self, size: usize) -> (c: Self)
        ensures
            c@.max_size == size,
            c@.initial_capacity == self@.initial_capacity,
    {
        BodyConfig { max_size: size, ..self }
    }

    /// Sets the initial buffer capacity.
    pub fn with_initial_capacity(self, capacity: usize) -> (c: Self)
        ensures
            c@.max_size == self@.max_size,
            c@.initial_capacity == capacity,
    {
        BodyConfig { initial_capacity: capacity, ..self }
    }

    /// The maximum body size.
    pub fn max_size(&self) -> (r: usize)
        ensures
            r == self@.max_size,
    {
        self.max_size
    }

    /// The initial buffer capacity.
    pub fn initial_capacity(&self) -> (r: usize)
        ensures
            r == self@.initial_capacity,
    {
        self.initial_capacity
    }
}

/// Errors of body reading.
#[derive(Debug, Clone, PartialEq, Eq)]
pub enum BodyError {
    /// The body exceeds the maximum allowed size.
    TooLarge { size: usize, max: usize },
    /// The chunked encoding is malformed.
    InvalidChunkedEncoding { detail: &'static str },
    /// More data is needed.
    Incomplete { received: usize, expected: Option<usize> },
    /// The input ended early.
    UnexpectedEof,
}

/// The message of a body error.
pub open spec fn body_error_message(e: BodyError) -> Seq<char> {
    match e {
        BodyError::TooLarge { size, max } => "body too large: "@ + decimal(size as nat)
            + " bytes exceeds limit of "@ + decimal(max as nat),
        BodyError::InvalidChunkedEncoding { detail } => "invalid chunked encoding: "@ + detail@,
        BodyError::Incomplete { received, expected } => match expected {
            Some(exp) => "incomplete body: received "@ + decimal(received as nat) + " of "@
                + decimal(exp as nat) + " bytes"@,
            None => "incomplete body: received "@ + decimal(received as nat) + " bytes"@,
        },
        BodyError::UnexpectedEof => "unexpected end of body"@,
    }
}

impl BodyError {
    /// The human-readable message of this error.
    pub fn to_string(&self) -> (s: String)
        ensures
            s@ == body_error_message(*self),
    {
        let mut s = String::new();
        match self {
            BodyError::TooLarge { size, max } => {
                push_str(&mut s, "body too large: ");
                push_decimal(&mut s, *size as u64);
                push_str(&mut s, " bytes exceeds limit of ");
                push_decimal(&mut s, *max as u64);
            },
            BodyError::InvalidChunkedEncoding { detail } => {
                push_str(&mut s, "invalid chunked encoding: ");
                push_str(&mut s, detail);
            },
            BodyError::Incomplete { received, expected } => {
                push_str(&mut s, "incomplete body: received ");
                push_decimal(&mut s, *received as u64);
                match expected {
                    Some(exp) => {
                        push_str(&mut s, " of ");
                        push_decimal(&mut s, *exp as u64);
                        push_str(&mut s, " bytes");
                    },
                    None => {
                        push_str(&mut s, " bytes");
                    },
                }
            },
            BodyError::UnexpectedEof => {
                push_str(&mut s, "unexpected end of body");
            },
        }
        s
    }
}

/// How the length of a request body is determined by its headers.
#[derive(Debug, Clone, Copy, PartialEq, Eq, Structural)]
pub enum BodyLength {
    /// No body.
    NoBody,
    /// A body of exactly this many bytes.
    ContentLength(usize),
    /// A chunked transfer-encoded body.
    Chunked,
    /// Both Content-Length and chunked encoding were given.
    Conflicting,
}

// ============================================================================
// Content-Length bodies
// ============================================================================

/// Reads a body with a known Content-Length.
pub struct ContentLengthReader<'a> {
    buffer: &'a [u8],
    length: usize,
    position: usize,
    config: BodyConfig,
}

/// The state of a [`ContentLengthReader`].
pub struct ContentLengthReaderView {
    pub buffer: Seq<u8>,
    pub length: nat,
    pub position: nat,
}

impl<'a> View for ContentLengthReader<'a> {
    type V = ContentLengthReaderView;

    closed spec fn view(&self) -> ContentLengthReaderView {
        ContentLengthReaderView {
            buffer: self.buffer@,
            length: self.length as nat,
            position: self.position as nat,
        }
    }
}

impl<'a> ContentLengthReader<'a> {
    /// Creates a reader; refuses a `length` above the configured maximum.
    pub fn new(buffer: &'a [u8], length: usize, config: &BodyConfig) -> (r: Result<Self, BodyError>)
        ensures
            length > config@.max_size ==> r == Err::<Self, BodyError>(
                BodyError::TooLarge { size: length, max: config@.max_size },
            ),
            length <= config@.max_size ==> (r matches Ok(rd) && rd@.buffer == buffer@
                && rd@.length == length && rd@.position == 0),
    {
        if length > config.max_size {
            return Err(BodyError::TooLarge { size: length, max: config.max_size });
        }
        Ok(ContentLengthReader { buffer, length, position: 0, config: *config })
    }

    /// The expected body length.
    pub fn length(&self) -> (r: usize)
        ensures
            r == self@.length,
    {
        self.length
    }

    /// The number of bytes still to be read.
    pub fn remaining(&self) -> (r: usize)
        ensures
            r == (if self@.position <= self@.length { self@.length - self@.position } else { 0 }),
    {
        if self.position <= self.length {
            self.length - self.position
        } else {
            0
        }
    }

    /// All bytes have been read.
    pub fn is_complete(&self) -> (r: bool)
        ensures
            r == (self@.position >= self@.length),
    {
        self.position >= self.length
    }

    /// Reads up to `dest.len()` bytes into `dest` and returns how many.
    pub fn read(&mut self, dest: &mut [u8]) -> (r: Result<usize, BodyError>)
        ensures
            final(self)@.buffer == old(self)@.buffer,
            final(self)@.length == old(self)@.length,
            final(dest)@.len() == old(dest)@.len(),
            ({
                let pos = old(self)@.position as int;
                let len = old(self)@.length as int;
                let buf = old(self)@.buffer;
                let avail = if buf.len() >= pos { buf.len() - pos } else { 0int };
                let n = min(min(old(dest)@.len() as int, len - pos), avail);
                if pos >= len {
                    r == Ok::<usize, BodyError>(0) && final(self)@.position == pos
                        && final(dest)@ == old(dest)@
                } else if n == 0 {
                    r == Err::<usize, BodyError>(
                        BodyError::Incomplete { received: pos as usize, expected: Some(len as usize) },
                    ) && final(self)@.position == pos && final(dest)@ == old(dest)@
                } else {
                    r == Ok::<usize, BodyError>(n as usize) && final(self)@.position == pos + n
                        && final(dest)@ == buf.subrange(pos, pos + n) + old(dest)@.subrange(
                        n,
                        old(dest)@.len() as int,
                    )
                }
            }),
    {
        if self.is_complete() {
            return Ok(0);
        }
        let available = if self.buffer.len() >= self.position {
            self.buffer.len() - self.position
        } else {
            0
        };
        let mut to_read = dest.len();
        if self.remaining() < to_read {
            to_read = self.remaining();
        }
        if available < to_read {
            to_read = available;
        }
        if to_read == 0 {
            return Err(
                BodyError::Incomplete { received: self.position, expected: Some(self.length) },
            );
        }
        let ghost d0 = dest@;
        let mut i: usize = 0;
        while i < to_read
            invariant
                i <= to_read,
                to_read <= dest.len(),
                self.position + to_read <= self.buffer.len(),
                dest@.len() == d0.len(),
                dest@.subrange(0, i as int) == self.buffer@.subrange(
                    self.position as int,
                    self.position + i,
                ),
                dest@.subrange(i as int, dest@.len() as int) == d0.subrange(
                    i as int,
                    d0.len() as int,
                ),
            decreases to_read - i,
        {
            let ghost prev = dest@;
            dest[i] = self.buffer[self.position + i];
            assert(dest@ == prev.update(i as int, self.buffer@[self.position + i]));
            assert(dest@.subrange(i + 1, dest@.len() as int) =~= prev.subrange(
                i + 1,
                prev.len() as int,
            ));
            assert(prev.subrange(i + 1, prev.len() as int) =~= prev.subrange(
                i as int,
                prev.len() as int,
            ).drop_first());
            assert(d0.subrange(i + 1, d0.len() as int) =~= d0.subrange(
                i as int,
                d0.len() as int,
            ).drop_first());
            assert(dest@.subrange(0, i + 1) =~= prev.subrange(0, i as int).push(
                self.buffer@[self.position + i],
            ));
            i += 1;
        }
        assert(dest@ == dest@.subrange(0, to_read as int) + dest@.subrange(
            to_read as int,
            dest@.len() as int,
        ));
        self.position = self.position + to_read;
        Ok(to_read)
    }

    /// Reads the whole body; fails when the buffer holds fewer than `length` bytes.
    pub fn read_all(&mut self) -> (r: Result<Vec<u8>, BodyError>)
        ensures
            final(self)@.buffer == old(self)@.buffer,
            final(self)@.length == old(self)@.length,
            old(self)@.buffer.len() < old(self)@.length ==> r == Err::<Vec<u8>, BodyError>(
                BodyError::Incomplete {
                    received: old(self)@.buffer.len() as usize,
                    expected: Some(old(self)@.length as usize),
                },
            ) && final(self)@.position == old(self)@.position,
            old(self)@.buffer.len() >= old(self)@.length ==> (r matches Ok(v) && v@
                == old(self)@.buffer.take(old(self)@.length as int) && final(self)@.position
                == old(self)@.length),
    {
        if self.buffer.len() < self.length {
            return Err(
                BodyError::Incomplete { received: self.buffer.len(), expected: Some(self.length) },
            );
        }
        let body = copy_range(self.buffer, 0, self.length);
        self.position = self.length;
        Ok(body)
    }

    /// The whole body as a view into the buffer, without copying.
    pub fn read_all_borrowed(&self) -> (r: Result<&'a [u8], BodyError>)
        ensures
            self@.buffer.len() < self@.length ==> r == Err::<&'a [u8], BodyError>(
                BodyError::Incomplete {
                    received: self@.buffer.len() as usize,
                    expected: Some(self@.length as usize),
                },
            ),
            self@.buffer.len() >= self@.length ==> (r matches Ok(v) && v@ == self@.buffer.take(
                self@.length as int,
            )),
    {
        if self.buffer.len() < self.length {
            return Err(
                BodyError::Incomplete { received: self.buffer.len(), expected: Some(self.length) },
            );
        }
        Ok(vstd::slice::slice_subrange(self.buffer, 0, self.length))
    }
}

// ============================================================================
// Chunked transfer encoding
// ============================================================================

/// Where the chunked decoder stands.
#[derive(Debug, Clone, Copy, PartialEq, Eq, Structural)]
pub enum ChunkedState {
    /// Expecting a chunk size line.
    ChunkSize,
    /// Reading chunk data.
    ChunkData { remaining: usize },
    /// Expecting the CRLF after chunk data.
    ChunkDataEnd,
    /// Skipping trailers after the final chunk.
    Trailers,
    /// Done.
    Complete,
}

/// Why a chunk size line was refused.
#[derive(Debug, Clone, Copy, PartialEq, Eq, Structural)]
pub enum ChunkLineError {
    InvalidUtf8,
    InvalidHex,
    TooLarge,
}

pub open spec fn chunk_line_detail(e: ChunkLineError) -> &'static str {
    match e {
        ChunkLineError::InvalidUtf8 => "invalid UTF-8 in chunk size",
        ChunkLineError::InvalidHex => "invalid hex chunk size",
        ChunkLineError::TooLarge => "chunk size exceeds 16MB limit",
    }
}

/// The part of a chunk size line before any `;` extension.
pub open spec fn size_part(line: Seq<u8>) -> Seq<u8> {
    match find_byte(line, 59u8, 0) {
        Some(i) => line.take(i),
        None => line,
    }
}

/// The value a chunk size line (without its CRLF) announces: the text before
/// any `;`, decoded as UTF-8, trimmed, read as hexadecimal into a `usize`.
pub open spec fn size_line_value(line: Seq<u8>) -> Result<nat, ChunkLineError> {
    let part = size_part(line);
    if !valid_utf8(part) {
        Err(ChunkLineError::InvalidUtf8)
    } else {
        match parse_hex_usize(trim(decode_utf8(part))) {
            None => Err(ChunkLineError::InvalidHex),
            Some(v) => Ok(v),
        }
    }
}

/// The chunk size a size line announces, refused above 16MB.
pub open spec fn chunk_size_of(line: Seq<u8>) -> Result<nat, ChunkLineError> {
    match size_line_value(line) {
        Err(k) => Err(k),
        Ok(v) => if v > MAX_SINGLE_CHUNK {
            Err(ChunkLineError::TooLarge)
        } else {
            Ok(v)
        },
    }
}

/// Reads the size announced by a chunk size line.
pub fn parse_size_line(line: &[u8]) -> (r: Result<usize, ChunkLineError>)
    ensures
        match size_line_value(line@) {
            Ok(v) => r == Ok::<usize, ChunkLineError>(v as usize),
            Err(k) => r == Err::<usize, ChunkLineError>(k),
        },
{
    let cut = match find_byte_from(line, 59u8, 0) {
        Some(i) => i,
        None => line.len(),
    };
    proof {
        lemma_find_byte_bounds(line@, 59u8, 0);
    }
    let part = copy_range(line, 0, cut);
    assert(part@ == size_part(line@));
    let text = match utf8_str(part.as_slice()) {
        Some(s) => s,
        None => {
            return Err(ChunkLineError::InvalidUtf8);
        },
    };
    let cs = chars_of(text);
    let (lo, hi) = trim_bounds(cs.as_slice());
    match parse_hex_range(cs.as_slice(), lo, hi) {
        Some(v) => Ok(v),
        None => Err(ChunkLineError::InvalidHex),
    }
}

/// One step of the chunked decoder.
pub enum ChunkStep {
    Fail(BodyError),
    Go { state: ChunkedState, pos: int, total: int, data: Seq<u8> },
    Stop,
}

/// The step the decoder takes from `st` at byte `pos` of `buf`, with `total`
/// bytes decoded so far and a size limit of `max`.
pub open spec fn chunked_step(buf: Seq<u8>, st: ChunkedState, pos: int, total: int, max: int) -> ChunkStep {
    match st {
        ChunkedState::ChunkSize => match find_crlf(buf, pos) {
            None => ChunkStep::Fail(BodyError::Incomplete { received: pos as usize, expected: None }),
            Some(e) => match chunk_size_of(buf.subrange(pos, e)) {
                Err(k) => ChunkStep::Fail(
                    BodyError::InvalidChunkedEncoding { detail: chunk_line_detail(k) },
                ),
                Ok(size) => {
                    let nt = if total + size > usize::MAX { usize::MAX as int } else { total + size };
                    if nt > max {
                        ChunkStep::Fail(BodyError::TooLarge { size: nt as usize, max: max as usize })
                    } else if size == 0 {
                        ChunkStep::Go { state: ChunkedState::Trailers, pos: e + 2, total, data: Seq::empty() }
                    } else {
                        ChunkStep::Go {
                            state: ChunkedState::ChunkData { remaining: size as usize },
                            pos: e + 2,
                            total,
                            data: Seq::empty(),
                        }
                    }
                },
            },
        },
        ChunkedState::ChunkData { remaining } => {
            let avail = if buf.len() > pos { buf.len() - pos } else { 0 };
            if avail < remaining {
                ChunkStep::Fail(
                    BodyError::Incomplete {
                        received: (total + (remaining - avail)) as usize,
                        expected: None,
                    },
                )
            } else {
                ChunkStep::Go {
                    state: ChunkedState::ChunkDataEnd,
                    pos: pos + remaining,
                    total: total + remaining,
                    data: buf.subrange(pos, pos + remaining),
                }
            }
        },
        ChunkedState::ChunkDataEnd => {
            if buf.len() - pos < 2 {
                ChunkStep::Fail(BodyError::Incomplete { received: total as usize, expected: None })
            } else if !crlf_at(buf, pos) {
                ChunkStep::Fail(
                    BodyError::InvalidChunkedEncoding { detail: "expected CRLF after chunk data" },
                )
            } else {
                ChunkStep::Go { state: ChunkedState::ChunkSize, pos: pos + 2, total, data: Seq::empty() }
            }
        },
        ChunkedState::Trailers => {
            if crlf_at(buf, pos) {
                ChunkStep::Go { state: ChunkedState::Complete, pos: pos + 2, total, data: Seq::empty() }
            } else {
                match find_crlf(buf, pos) {
                    Some(e) => ChunkStep::Go { state: ChunkedState::Trailers, pos: e + 2, total, data: Seq::empty() },
                    None => ChunkStep::Fail(BodyError::Incomplete { received: total as usize, expected: None }),
                }
            }
        },
        ChunkedState::Complete => ChunkStep::Stop,
    }
}

pub open spec fn chunk_rank(st: ChunkedState) -> int {
    match st {
        ChunkedState::ChunkData { .. } => 1,
        _ => 0,
    }
}

/// Runs the decoder to the end: the decoded bytes, the final position and
/// the final total, or the first error.
pub open spec fn chunked_run(buf: Seq<u8>, st: ChunkedState, pos: int, total: int, max: int) -> Result<
    (Seq<u8>, int, int),
    BodyError,
>
    decreases buf.len() - pos, chunk_rank(st),
{
    match chunked_step(buf, st, pos, total, max) {
        ChunkStep::Stop => Ok((Seq::empty(), pos, total)),
        ChunkStep::Fail(e) => Err(e),
        ChunkStep::Go { state, pos: p, total: t, data } => {
            if pos <= p <= buf.len() && (p > pos || chunk_rank(state) < chunk_rank(st)) {
                match chunked_run(buf, state, p, t, max) {
                    Ok((rest, q, tt)) => Ok((data + rest, q, tt)),
                    Err(e) => Err(e),
                }
            } else {
                Err(BodyError::UnexpectedEof)
            }
        },
    }
}

/// The decoded body of a complete chunked buffer, decoded from the start.
pub open spec fn chunked_decode(buf: Seq<u8>, max: int) -> Result<(Seq<u8>, int, int), BodyError> {
    chunked_run(buf, ChunkedState::ChunkSize, 0, 0, max)
}

pub open spec fn prepend_output(out: Seq<u8>, r: Result<(Seq<u8>, int, int), BodyError>) -> Result<
    (Seq<u8>, int, int),
    BodyError,
> {
    match r {
        Ok((rest, q, t)) => Ok((out + rest, q, t)),
        Err(e) => Err(e),
    }
}

/// Parses chunked transfer encoding.
pub struct ChunkedReader<'a> {
    buffer: &'a [u8],
    position: usize,
    state: ChunkedState,
    total_size: usize,
    config: BodyConfig,
}

/// The state of a [`ChunkedReader`].
pub struct ChunkedReaderView {
    pub buffer: Seq<u8>,
    pub position: int,
    pub state: ChunkedState,
    pub total_size: int,
    pub max_size: int,
}

impl<'a> View for ChunkedReader<'a> {
    type V = ChunkedReaderView;

    closed spec fn view(&self) -> ChunkedReaderView {
        ChunkedReaderView {
            buffer: self.buffer@,
            position: self.position as int,
            state: self.state,
            total_size: self.total_size as int,
            max_size: self.config.max_size as int,
        }
    }
}

impl<'a> ChunkedReader<'a> {
    /// The reader's fields agree with each other.
    pub closed spec fn wf(&self) -> bool {
        &&& self.position <= self.buffer.len()
        &&& self.buffer.len() <= isize::MAX
        &&& self.total_size <= self.position
        &&& self.total_size <= self.config.max_size
        &&& (self.state matches ChunkedState::ChunkData { remaining } ==> remaining
            <= MAX_SINGLE_CHUNK && self.total_size + remaining <= self.config.max_size)
    }

    /// Creates a reader at the start of `buffer`.
    pub fn new(buffer: &'a [u8], config: &BodyConfig) -> (r: Self)
        requires
            buffer@.len() <= isize::MAX,
        ensures
            r.wf(),
            r@.buffer == buffer@,
            r@.position == 0,
            r@.state == ChunkedState::ChunkSize,
            r@.total_size == 0,
            r@.max_size == config@.max_size,
    {
        ChunkedReader {
            buffer,
            position: 0,
            state: ChunkedState::ChunkSize,
            total_size: 0,
            config: *config,
        }
    }

    /// Decoding has finished.
    pub fn is_complete(&self) -> (r: bool)
        ensures
            r == (self@.state == ChunkedState::Complete),
    {
        self.state == ChunkedState::Complete
    }

    /// The number of body bytes decoded so far.
    pub fn total_size(&self) -> (r: usize)
        ensures
            r == self@.total_size,
    {
        self.total_size
    }

    /// The number of raw bytes consumed from the buffer.
    pub fn bytes_consumed(&self) -> (r: usize)
        ensures
            r == self@.position,
    {
        self.position
    }

    /// Parses the chunk size line at the current position: the size and the
    /// number of bytes the line takes with its CRLF.
    fn parse_chunk_size(&self) -> (r: Result<(usize, usize), BodyError>)
        requires
            self.wf(),
            self.state == ChunkedState::ChunkSize,
        ensures
            match find_crlf(self.buffer@, self.position as int) {
                None => r == Err::<(usize, usize), BodyError>(
                    BodyError::Incomplete { received: self.position, expected: None },
                ),
                Some(e) => match chunk_size_of(self.buffer@.subrange(self.position as int, e)) {
                    Err(k) => r == Err::<(usize, usize), BodyError>(
                        BodyError::InvalidChunkedEncoding { detail: chunk_line_detail(k) },
                    ),
                    Ok(size) => r == Ok::<(usize, usize), BodyError>(
                        (size as usize, (e - self.position + 2) as usize),
                    ),
                },
            },
    {
        proof {
            lemma_find_crlf_bounds(self.buffer@, self.position as int);
        }
        let line_end = match find_crlf_from(self.buffer, self.position) {
            Some(e) => e,
            None => {
                return Err(BodyError::Incomplete { received: self.position, expected: None });
            },
        };
        let line_bytes = copy_range(self.buffer, self.position, line_end);
        let size = match parse_size_line(line_bytes.as_slice()) {
            Ok(v) => v,
            Err(ChunkLineError::InvalidUtf8) => {
                return Err(BodyError::InvalidChunkedEncoding { detail: "invalid UTF-8 in chunk size" });
            },
            Err(_) => {
                return Err(BodyError::InvalidChunkedEncoding { detail: "invalid hex chunk size" });
            },
        };
        if size > MAX_SINGLE_CHUNK {
            return Err(BodyError::InvalidChunkedEncoding { detail: "chunk size exceeds 16MB limit" });
        }
        Ok((size, line_end - self.position + 2))
    }

    /// Decodes all chunks into one buffer.
    pub fn decode_all(&mut self) -> (r: Result<Vec<u8>, BodyError>)
        requires
            old(self).wf(),
        ensures
            final(self).wf(),
            final(self)@.buffer == old(self)@.buffer,
            final(self)@.max_size == old(self)@.max_size,
            match chunked_run(
                old(self)@.buffer,
                old(self)@.state,
                old(self)@.position,
                old(self)@.total_size,
                old(self)@.max_size,
            ) {
                Ok((out, q, t)) => (r matches Ok(v) && v@ == out) && final(self)@.position == q
                    && final(self)@.total_size == t && final(self)@.state == ChunkedState::Complete,
                Err(e) => r == Err::<Vec<u8>, BodyError>(e),
            },
    {
        let ghost buf = self.buffer@;
        let ghost max = self.config.max_size as int;
        let ghost goal = chunked_run(
            buf,
            self.state,
            self.position as int,
            self.total_size as int,
            max,
        );
        let mut output: Vec<u8> = Vec::new();
        assert(output@ + Seq::<u8>::empty() == output@);
        loop
            invariant
                self.wf(),
                self.buffer@ == buf,
                self.config.max_size == max,
                buf == old(self)@.buffer,
                max == old(self)@.max_size,
                goal == chunked_run(
                    old(self)@.buffer,
                    old(self)@.state,
                    old(self)@.position,
                    old(self)@.total_size,
                    old(self)@.max_size,
                ),
                goal == prepend_output(
                    output@,
                    chunked_run(buf, self.state, self.position as int, self.total_size as int, max),
                ),
            decreases buf.len() - self.position, chunk_rank(self.state),
        {
            let ghost st0 = self.state;
            let ghost p0 = self.position as int;
            let ghost t0 = self.total_size as int;
            let ghost out0 = output@;
            match self.state {
                ChunkedState::ChunkSize => {
                    proof {
                        lemma_find_crlf_bounds(buf, p0);
                    }
                    let (size, consumed) = match self.parse_chunk_size() {
                        Ok(v) => v,
                        Err(e) => {
                            return Err(e);
                        },
                    };
                    self.position = self.position + consumed;
                    let new_total = if self.total_size > usize::MAX - size {
                        usize::MAX
                    } else {
                        self.total_size + size
                    };
                    if new_total > self.config.max_size {
                        return Err(BodyError::TooLarge { size: new_total, max: self.config.max_size });
                    }
                    if size == 0 {
                        self.state = ChunkedState::Trailers;
                    } else {
                        self.state = ChunkedState::ChunkData { remaining: size };
                    }
                    assert(output@ + Seq::<u8>::empty() == output@);
                },
                ChunkedState::ChunkData { remaining } => {
                    let available = self.buffer.len() - self.position;
                    if available < remaining {
                        return Err(
                            BodyError::Incomplete {
                                received: self.total_size + (remaining - available),
                                expected: None,
                            },
                        );
                    }
                    let ghost data = buf.subrange(p0, p0 + remaining);
                    extend_from_range(&mut output, self.buffer, self.position, self.position + remaining);
                    self.position = self.position + remaining;
                    self.total_size = self.total_size + remaining;
                    self.state = ChunkedState::ChunkDataEnd;
                    proof {
                        let r = chunked_run(buf, self.state, self.position as int, self.total_size as int, max);
                        assert(prepend_output(out0, prepend_output(data, r)) == prepend_output(out0 + data, r)) by {
                            match r {
                                Ok((rest, q, tt)) => {
                                    assert(out0 + (data + rest) == out0 + data + rest);
                                },
                                Err(_) => {},
                            }
                        }
                    }
                },
                ChunkedState::ChunkDataEnd => {
                    if self.buffer.len() - self.position < 2 {
                        return Err(BodyError::Incomplete { received: self.total_size, expected: None });
                    }
                    if !(self.buffer[self.position] == 13u8 && self.buffer[self.position + 1] == 10u8) {
                        return Err(
                            BodyError::InvalidChunkedEncoding { detail: "expected CRLF after chunk data" },
                        );
                    }
                    self.position = self.position + 2;
                    self.state = ChunkedState::ChunkSize;
                    assert(output@ + Seq::<u8>::empty() == output@);
                },
                ChunkedState::Trailers => {
                    proof {
                        lemma_find_crlf_bounds(buf, p0);
                    }
                    if self.buffer.len() - self.position >= 2 && self.buffer[self.position] == 13u8
                        && self.buffer[self.position + 1] == 10u8 {
                        self.position = self.position + 2;
                        self.state = ChunkedState::Complete;
                    } else {
                        match find_crlf_from(self.buffer, self.position) {
                            Some(pos) => {
                                self.position = pos + 2;
                            },
                            None => {
                                return Err(BodyError::Incomplete { received: self.total_size, expected: None });
                            },
                        }
                    }
                    assert(output@ + Seq::<u8>::empty() == output@);
                },
                ChunkedState::Complete => {
                    assert(output@ + Seq::<u8>::empty() == output@);
                    return Ok(output);
                },
            }
        }
    }
}

// ============================================================================
// Well-formed chunked bodies
// ============================================================================

/// A data chunk as it stands in a chunked body: its size line (without the
/// CRLF, extensions included) and its data.
pub struct ChunkFrame {
    pub line: Seq<u8>,
    pub data: Seq<u8>,
}

pub open spec fn crlf_bytes() -> Seq<u8> {
    seq![13u8, 10u8]
}

pub open spec fn no_cr(s: Seq<u8>) -> bool {
    forall|i: int| 0 <= i < s.len() ==> s[i] != 13u8
}

/// A size line that holds no CR and announces `n`.
pub open spec fn size_line_for(line: Seq<u8>, n: nat) -> bool {
    no_cr(line) && chunk_size_of(line) == Ok::<nat, ChunkLineError>(n)
}

/// A nonempty chunk whose size line announces its length.
pub open spec fn frame_wf(f: ChunkFrame) -> bool {
    f.data.len() > 0 && size_line_for(f.line, f.data.len())
}

pub open spec fn frame_bytes(f: ChunkFrame) -> Seq<u8> {
    f.line + crlf_bytes() + f.data + crlf_bytes()
}

pub open spec fn frames_bytes(fs: Seq<ChunkFrame>) -> Seq<u8>
    decreases fs.len(),
{
    if fs.len() == 0 {
        Seq::empty()
    } else {
        frame_bytes(fs[0]) + frames_bytes(fs.drop_first())
    }
}

/// The data of the chunks, joined.
pub open spec fn frames_data(fs: Seq<ChunkFrame>) -> Seq<u8>
    decreases fs.len(),
{
    if fs.len() == 0 {
        Seq::empty()
    } else {
        fs[0].data + frames_data(fs.drop_first())
    }
}

/// The trailer lines, each with its CRLF, and the blank line that ends them.
pub open spec fn trailer_bytes(ts: Seq<Seq<u8>>) -> Seq<u8>
    decreases ts.len(),
{
    if ts.len() == 0 {
        crlf_bytes()
    } else {
        ts[0] + crlf_bytes() + trailer_bytes(ts.drop_first())
    }
}

/// The chunks are well formed, `last` is a size line announcing zero, and
/// each trailer line is nonempty and holds no CR.
pub open spec fn chunked_wf(fs: Seq<ChunkFrame>, last: Seq<u8>, ts: Seq<Seq<u8>>) -> bool {
    &&& forall|i: int| 0 <= i < fs.len() ==> frame_wf(#[trigger] fs[i])
    &&& size_line_for(last, 0)
    &&& forall|j: int| 0 <= j < ts.len() ==> (#[trigger] ts[j]).len() > 0 && no_cr(ts[j])
}

/// A chunked body: the chunks, the last chunk, the trailers.
pub open spec fn chunked_bytes(fs: Seq<ChunkFrame>, last: Seq<u8>, ts: Seq<Seq<u8>>) -> Seq<u8> {
    frames_bytes(fs) + last + crlf_bytes() + trailer_bytes(ts)
}

/// The first running total of the chunk sizes, from `total`, that exceeds
/// `max` (capped at `usize::MAX`).
pub open spec fn first_total_over(fs: Seq<ChunkFrame>, total: int, max: int) -> int
    decreases fs.len(),
{
    if fs.len() == 0 {
        total
    } else {
        let t = total + fs[0].data.len();
        if t > max {
            if t > usize::MAX { usize::MAX as int } else { t }
        } else {
            first_total_over(fs.drop_first(), t, max)
        }
    }
}

/// `s` stands in `buf` at `pos`.
pub open spec fn seq_at(buf: Seq<u8>, pos: int, s: Seq<u8>) -> bool {
    0 <= pos && pos + s.len() <= buf.len() && buf.subrange(pos, pos + s.len()) == s
}

pub proof fn lemma_seq_at_split(buf: Seq<u8>, pos: int, a: Seq<u8>, b: Seq<u8>)
    requires
        seq_at(buf, pos, a + b),
    ensures
        seq_at(buf, pos, a),
        seq_at(buf, pos + a.len(), b),
{
    let ab = a + b;
    assert forall|j: int| 0 <= j < ab.len() implies buf[pos + j] == #[trigger] ab[j] by {
        assert(buf.subrange(pos, pos + ab.len())[j] == buf[pos + j]);
    }
    assert(buf.subrange(pos, pos + a.len()) =~= a) by {
        assert forall|j: int| 0 <= j < a.len() implies buf.subrange(pos, pos + a.len())[j] == a[j] by {
            assert(ab[j] == a[j]);
        }
    }
    assert(buf.subrange(pos + a.len(), pos + a.len() + b.len()) =~= b) by {
        assert forall|j: int| 0 <= j < b.len() implies buf.subrange(pos + a.len(), pos + a.len() + b.len())[j] == b[j] by {
            assert(ab[a.len() + j] == b[j]);
        }
    }
}

/// A line without CR followed by CRLF: the first CRLF ends it.
pub proof fn lemma_line_at(buf: Seq<u8>, pos: int, line: Seq<u8>)
    requires
        seq_at(buf, pos, line + crlf_bytes()),
        no_cr(line),
    ensures
        find_crlf(buf, pos) == Some(pos + line.len()),
        buf.subrange(pos, pos + line.len()) == line,
{
    lemma_seq_at_split(buf, pos, line, crlf_bytes());
    let c = crlf_bytes();
    assert(buf[pos + line.len()] == 13u8 && buf[pos + line.len() + 1] == 10u8) by {
        assert(buf.subrange(pos + line.len(), pos + line.len() + 2)[0] == c[0]);
        assert(buf.subrange(pos + line.len(), pos + line.len() + 2)[1] == c[1]);
    }
    assert forall|j: int| pos <= j < pos + line.len() implies buf[j] != 13u8 by {
        assert(buf.subrange(pos, pos + line.len())[j - pos] == line[j - pos]);
    }
    lemma_find_crlf_first(buf, pos, pos + line.len());
}

pub proof fn lemma_prepend_output_assoc(a: Seq<u8>, b: Seq<u8>, r: Result<(Seq<u8>, int, int), BodyError>)
    ensures
        prepend_output(a, prepend_output(b, r)) == prepend_output(a + b, r),
{
    match r {
        Ok((rest, q, t)) => {
            assert(a + (b + rest) =~= a + b + rest);
        },
        Err(_) => {},
    }
}

/// Decoding one well-formed chunk: its data, or `TooLarge` when it takes
/// the total above `max`.
proof fn lemma_decode_frame(buf: Seq<u8>, pos: int, f: ChunkFrame, total: int, max: int)
    requires
        seq_at(buf, pos, frame_bytes(f)),
        frame_wf(f),
        0 <= total <= max <= usize::MAX,
    ensures
        total + f.data.len() <= max ==> chunked_run(buf, ChunkedState::ChunkSize, pos, total, max) == prepend_output(
            f.data,
            chunked_run(buf, ChunkedState::ChunkSize, pos + frame_bytes(f).len(), total + f.data.len(), max),
        ),
        total + f.data.len() > max && max < usize::MAX ==> chunked_run(buf, ChunkedState::ChunkSize, pos, total, max) == Err::<
            (Seq<u8>, int, int),
            BodyError,
        >(
            BodyError::TooLarge {
                size: (if total + f.data.len() > usize::MAX { usize::MAX as int } else { total + f.data.len() }) as usize,
                max: max as usize,
            },
        ),
{
    let n = f.data.len() as int;
    let k = f.line.len() as int;
    let c = crlf_bytes();
    lemma_seq_at_split(buf, pos, f.line + c + f.data, c);
    lemma_seq_at_split(buf, pos, f.line + c, f.data);
    lemma_line_at(buf, pos, f.line);
    let p1 = pos + k + 2;
    let p2 = p1 + n;
    let nt = if total + n > usize::MAX { usize::MAX as int } else { total + n };
    assert(find_crlf(buf, pos) == Some(pos + k));
    assert(chunk_size_of(buf.subrange(pos, pos + k)) == Ok::<nat, ChunkLineError>(n as nat));
    if total + n > max && max < usize::MAX {
        assert(chunked_step(buf, ChunkedState::ChunkSize, pos, total, max) == ChunkStep::Fail(
            BodyError::TooLarge { size: nt as usize, max: max as usize }));
    } else if total + n <= max {
        assert(chunked_step(buf, ChunkedState::ChunkSize, pos, total, max) == ChunkStep::Go {
            state: ChunkedState::ChunkData { remaining: n as usize }, pos: p1, total, data: Seq::empty() });
        assert(chunked_step(buf, ChunkedState::ChunkData { remaining: n as usize }, p1, total, max) == ChunkStep::Go {
            state: ChunkedState::ChunkDataEnd, pos: p2, total: total + n, data: f.data });
        assert(buf[p2] == 13u8 && buf[p2 + 1] == 10u8) by {
            assert(buf.subrange(p2, p2 + 2)[0] == c[0]);
            assert(buf.subrange(p2, p2 + 2)[1] == c[1]);
        }
        assert(chunked_step(buf, ChunkedState::ChunkDataEnd, p2, total + n, max) == ChunkStep::Go {
            state: ChunkedState::ChunkSize, pos: p2 + 2, total: total + n, data: Seq::empty() });
        let tail = chunked_run(buf, ChunkedState::ChunkSize, p2 + 2, total + n, max);
        assert(p2 + 2 == pos + frame_bytes(f).len());
        let r3 = chunked_run(buf, ChunkedState::ChunkDataEnd, p2, total + n, max);
        assert(r3 == prepend_output(Seq::empty(), tail));
        let r2 = chunked_run(buf, ChunkedState::ChunkData { remaining: n as usize }, p1, total, max);
        assert(r2 == prepend_output(f.data, r3));
        assert(chunked_run(buf, ChunkedState::ChunkSize, pos, total, max) == prepend_output(Seq::empty(), r2));
        lemma_prepend_output_assoc(f.data, Seq::empty(), tail);
        lemma_prepend_output_assoc(Seq::empty(), f.data + Seq::<u8>::empty(), tail);
        assert(f.data + Seq::<u8>::empty() == f.data);
        assert(Seq::<u8>::empty() + f.data == f.data);
    }
}

proof fn lemma_decode_frames(buf: Seq<u8>, pos: int, fs: Seq<ChunkFrame>, total: int, max: int)
    requires
        seq_at(buf, pos, frames_bytes(fs)),
        forall|i: int| 0 <= i < fs.len() ==> frame_wf(#[trigger] fs[i]),
        0 <= total <= max <= usize::MAX,
    ensures
        total + frames_data(fs).len() <= max ==> chunked_run(buf, ChunkedState::ChunkSize, pos, total, max)
            == prepend_output(
            frames_data(fs),
            chunked_run(
                buf,
                ChunkedState::ChunkSize,
                pos + frames_bytes(fs).len(),
                total + frames_data(fs).len(),
                max,
            ),
        ),
        total + frames_data(fs).len() > max && max < usize::MAX ==> chunked_run(buf, ChunkedState::ChunkSize, pos, total, max) == Err::<
            (Seq<u8>, int, int),
            BodyError,
        >(BodyError::TooLarge { size: first_total_over(fs, total, max) as usize, max: max as usize }),
    decreases fs.len(),
{
    if fs.len() == 0 {
        let r = chunked_run(buf, ChunkedState::ChunkSize, pos, total, max);
        match r {
            Ok((rest, q, t)) => {
                assert(Seq::<u8>::empty() + rest =~= rest);
            },
            Err(_) => {},
        }
    } else {
        let f = fs[0];
        let rest = fs.drop_first();
        assert(frame_wf(fs[0]));
        assert forall|i: int| 0 <= i < rest.len() implies frame_wf(#[trigger] rest[i]) by {
            assert(rest[i] == fs[i + 1]);
        }
        lemma_seq_at_split(buf, pos, frame_bytes(f), frames_bytes(rest));
        lemma_decode_frame(buf, pos, f, total, max);
        let n = f.data.len() as int;
        if total + n <= max {
            let p2 = pos + frame_bytes(f).len();
            lemma_decode_frames(buf, p2, rest, total + n, max);
            let tail = chunked_run(
                buf,
                ChunkedState::ChunkSize,
                p2 + frames_bytes(rest).len(),
                total + n + frames_data(rest).len(),
                max,
            );
            lemma_prepend_output_assoc(f.data, frames_data(rest), tail);
        }
    }
}

proof fn lemma_decode_trailers(buf: Seq<u8>, pos: int, ts: Seq<Seq<u8>>, total: int, max: int)
    requires
        seq_at(buf, pos, trailer_bytes(ts)),
        forall|j: int| 0 <= j < ts.len() ==> (#[trigger] ts[j]).len() > 0 && no_cr(ts[j]),
    ensures
        chunked_run(buf, ChunkedState::Trailers, pos, total, max) == Ok::<(Seq<u8>, int, int), BodyError>(
            (Seq::empty(), pos + trailer_bytes(ts).len(), total),
        ),
    decreases ts.len(),
{
    let c = crlf_bytes();
    if ts.len() == 0 {
        assert(buf[pos] == 13u8 && buf[pos + 1] == 10u8) by {
            assert(buf.subrange(pos, pos + 2)[0] == c[0]);
            assert(buf.subrange(pos, pos + 2)[1] == c[1]);
        }
        assert(chunked_step(buf, ChunkedState::Trailers, pos, total, max) == ChunkStep::Go {
            state: ChunkedState::Complete, pos: pos + 2, total, data: Seq::empty() });
        assert(chunked_run(buf, ChunkedState::Complete, pos + 2, total, max) == Ok::<(Seq<u8>, int, int), BodyError>(
            (Seq::empty(), pos + 2, total)));
        assert(Seq::<u8>::empty() + Seq::<u8>::empty() =~= Seq::<u8>::empty());
    } else {
        let t = ts[0];
        let rest = ts.drop_first();
        assert(t.len() > 0 && no_cr(t));
        assert forall|j: int| 0 <= j < rest.len() implies (#[trigger] rest[j]).len() > 0 && no_cr(rest[j]) by {
            assert(rest[j] == ts[j + 1]);
        }
        lemma_seq_at_split(buf, pos, t + c, trailer_bytes(rest));
        lemma_line_at(buf, pos, t);
        assert(buf[pos] == t[0]) by {
            assert(buf.subrange(pos, pos + t.len())[0] == buf[pos]);
        }
        assert(!crlf_at(buf, pos));
        let q = pos + t.len() + 2;
        assert(chunked_step(buf, ChunkedState::Trailers, pos, total, max) == ChunkStep::Go {
            state: ChunkedState::Trailers, pos: q, total, data: Seq::empty() });
        lemma_decode_trailers(buf, q, rest, total, max);
        assert(Seq::<u8>::empty() + Seq::<u8>::empty() =~= Seq::<u8>::empty());
    }
}

proof fn lemma_decode_tail(buf: Seq<u8>, p: int, last: Seq<u8>, ts: Seq<Seq<u8>>, t: int, max: int)
    requires
        seq_at(buf, p, last + crlf_bytes()),
        seq_at(buf, p + last.len() + 2, trailer_bytes(ts)),
        size_line_for(last, 0),
        forall|j: int| 0 <= j < ts.len() ==> (#[trigger] ts[j]).len() > 0 && no_cr(ts[j]),
        0 <= t <= max <= usize::MAX,
    ensures
        chunked_run(buf, ChunkedState::ChunkSize, p, t, max) == Ok::<(Seq<u8>, int, int), BodyError>(
            (Seq::empty(), p + last.len() + 2 + trailer_bytes(ts).len(), t),
        ),
{
    lemma_line_at(buf, p, last);
    let q = p + last.len() + 2;
    assert(chunked_step(buf, ChunkedState::ChunkSize, p, t, max) == ChunkStep::Go {
        state: ChunkedState::Trailers, pos: q, total: t, data: Seq::empty() });
    lemma_decode_trailers(buf, q, ts, t, max);
    assert(Seq::<u8>::empty() + Seq::<u8>::empty() =~= Seq::<u8>::empty());
}

/// Decoding a well-formed chunked body, followed by anything: the data of
/// its chunks joined, every byte of the body used and counted, when the
/// data fit in `max`; otherwise `TooLarge` with the first running total of
/// the chunk sizes above `max` (for a `max` below `usize::MAX`, where a
/// running total can exceed it).
#[verifier::rlimit(40)]
pub proof fn lemma_chunked_decode_wf(fs: Seq<ChunkFrame>, last: Seq<u8>, ts: Seq<Seq<u8>>, rest: Seq<u8>, max: int)
    requires
        chunked_wf(fs, last, ts),
        0 <= max <= usize::MAX,
    ensures
        frames_data(fs).len() <= max ==> chunked_decode(chunked_bytes(fs, last, ts) + rest, max) == Ok::<
            (Seq<u8>, int, int),
            BodyError,
        >((frames_data(fs), chunked_bytes(fs, last, ts).len() as int, frames_data(fs).len() as int)),
        frames_data(fs).len() > max && max < usize::MAX ==> chunked_decode(chunked_bytes(fs, last, ts) + rest, max) == Err::<
            (Seq<u8>, int, int),
            BodyError,
        >(BodyError::TooLarge { size: first_total_over(fs, 0, max) as usize, max: max as usize }),
{
    let c = crlf_bytes();
    let enc = chunked_bytes(fs, last, ts);
    let buf = enc + rest;
    assert(seq_at(buf, 0, enc + rest)) by {
        assert(buf.subrange(0, buf.len() as int) =~= buf);
    }
    lemma_seq_at_split(buf, 0, enc, rest);
    lemma_seq_at_split(buf, 0, frames_bytes(fs) + last + c, trailer_bytes(ts));
    assert(frames_bytes(fs) + last + c =~= frames_bytes(fs) + (last + c));
    lemma_seq_at_split(buf, 0, frames_bytes(fs), last + c);
    lemma_decode_frames(buf, 0, fs, 0, max);
    if frames_data(fs).len() <= max {
        let p = frames_bytes(fs).len() as int;
        let t = frames_data(fs).len() as int;
        lemma_decode_tail(buf, p, last, ts, t, max);
        assert(frames_data(fs) + Seq::<u8>::empty() =~= frames_data(fs));
    }
}

// ============================================================================
// Body parsing from the length indicator
// ============================================================================

/// What parsing a body gives: the body (if one is expected) and the number
/// of raw bytes it took, or the error.
pub open spec fn parse_body_spec(buf: Seq<u8>, body_length: BodyLength, max: int) -> Result<
    (Option<Seq<u8>>, int),
    BodyError,
> {
    match body_length {
        BodyLength::NoBody => Ok((None, 0)),
        BodyLength::ContentLength(len) => if len == 0 {
            Ok((Some(Seq::empty()), 0))
        } else if len > max {
            Err(BodyError::TooLarge { size: len, max: max as usize })
        } else if buf.len() < len {
            Err(BodyError::Incomplete { received: buf.len() as usize, expected: Some(len) })
        } else {
            Ok((Some(buf.take(len as int)), len as int))
        },
        BodyLength::Chunked => match chunked_decode(buf, max) {
            Ok((out, q, _)) => Ok((Some(out), q)),
            Err(e) => Err(e),
        },
        BodyLength::Conflicting => Err(
            BodyError::InvalidChunkedEncoding { detail: "conflicting body length indicators" },
        ),
    }
}

pub open spec fn opt_vec_view(v: Option<Vec<u8>>) -> Option<Seq<u8>> {
    match v {
        Some(b) => Some(b@),
        None => None,
    }
}

/// Parses a request body and reports how many raw bytes it took.
pub fn parse_body_with_consumed(buffer: &[u8], body_length: BodyLength, config: &BodyConfig) -> (r:
    Result<(Option<Vec<u8>>, usize), BodyError>)
    requires
        buffer@.len() <= isize::MAX,
    ensures
        match parse_body_spec(buffer@, body_length, config@.max_size as int) {
            Ok((body, n)) => (r matches Ok((b, m)) && opt_vec_view(b) == body && m == n),
            Err(e) => r == Err::<(Option<Vec<u8>>, usize), BodyError>(e),
        },
{
    match body_length {
        BodyLength::NoBody => Ok((None, 0)),
        BodyLength::ContentLength(len) => {
            if len == 0 {
                return Ok((Some(Vec::new()), 0));
            }
            let mut reader = match ContentLengthReader::new(buffer, len, config) {
                Ok(rd) => rd,
                Err(e) => {
                    return Err(e);
                },
            };
            let body = match reader.read_all() {
                Ok(b) => b,
                Err(e) => {
                    return Err(e);
                },
            };
            Ok((Some(body), len))
        },
        BodyLength::Chunked => {
            let mut reader = ChunkedReader::new(buffer, config);
            let body = match reader.decode_all() {
                Ok(b) => b,
                Err(e) => {
                    return Err(e);
                },
            };
            Ok((Some(body), reader.bytes_consumed()))
        },
        BodyLength::Conflicting => Err(
            BodyError::InvalidChunkedEncoding { detail: "conflicting body length indicators" },
        ),
    }
}

proof fn lemma_run_within_limit(buf: Seq<u8>, st: ChunkedState, pos: int, total: int, max: int)
    requires
        buf.len() <= isize::MAX,
        0 <= pos <= buf.len(),
        0 <= total <= pos,
        total <= max <= usize::MAX,
        st matches ChunkedState::ChunkData { remaining } ==> total + remaining <= max,
    ensures
        chunked_run(buf, st, pos, total, max) matches Ok((out, q, t)) ==> total + out.len() <= max,
    decreases buf.len() - pos, chunk_rank(st),
{
    match chunked_step(buf, st, pos, total, max) {
        ChunkStep::Go { state, pos: p, total: t, data } => {
            if pos <= p <= buf.len() && (p > pos || chunk_rank(state) < chunk_rank(st)) {
                match st {
                    ChunkedState::ChunkSize => {
                        lemma_find_crlf_bounds(buf, pos);
                    },
                    _ => {},
                }
                lemma_run_within_limit(buf, state, p, t, max);
            }
        },
        _ => {},
    }
}

/// Bodies are limited: whatever the buffer, a parsed body is never longer
/// than the size limit.
pub proof fn lemma_body_within_limit(buf: Seq<u8>, body_length: BodyLength, max: int)
    requires
        buf.len() <= isize::MAX,
        0 <= max <= usize::MAX,
    ensures
        parse_body_spec(buf, body_length, max) matches Ok((Some(b), _)) ==> b.len() <= max,
{
    if body_length is Chunked {
        lemma_run_within_limit(buf, ChunkedState::ChunkSize, 0, 0, max);
    }
}

/// Parses a request body: the body bytes, or `None` when no body is expected.
pub fn parse_body(buffer: &[u8], body_length: BodyLength, config: &BodyConfig) -> (r: Result<
    Option<Vec<u8>>,
    BodyError,
>)
    requires
        buffer@.len() <= isize::MAX,
    ensures
        match parse_body_spec(buffer@, body_length, config@.max_size as int) {
            Ok((body, _)) => (r matches Ok(b) && opt_vec_view(b) == body),
            Err(e) => r == Err::<Option<Vec<u8>>, BodyError>(e),
        },
{
    match parse_body_with_consumed(buffer, body_length, config) {
        Ok((body, _)) => Ok(body),
        Err(e) => Err(e),
    }
}

/// Checks a Content-Length value against the limit before any reading.
pub fn validate_content_length(content_length: usize, config: &BodyConfig) -> (r: Result<(), BodyError>)
    ensures
        content_length <= config@.max_size ==> r == Ok::<(), BodyError>(()),
        content_length > config@.max_size ==> r == Err::<(), BodyError>(
            BodyError::TooLarge { size: content_length, max: config@.max_size },
        ),
{
    if content_length > config.max_size {
        return Err(BodyError::TooLarge { size: content_length, max: config.max_size });
    }
    Ok(())
}

// ============================================================================
// Streaming configuration
// ============================================================================

/// Configuration for streaming request bodies.
#[derive(Debug, Clone, Copy, PartialEq, Eq, Structural)]
pub struct StreamingBodyConfig {
    /// Bodies above this size are streamed.
    pub streaming_threshold: usize,
    /// Size of each read.
    pub chunk_size: usize,
    /// Maximum body size.
    pub max_size: usize,
}

impl Default for StreamingBodyConfig {
    fn default() -> (c: Self)
        ensures
            c.streaming_threshold == DEFAULT_STREAMING_THRESHOLD,
            c.chunk_size == 8192,
            c.max_size == DEFAULT_MAX_BODY_SIZE,
    {
        StreamingBodyConfig {
            streaming_threshold: DEFAULT_STREAMING_THRESHOLD,
            chunk_size: 8192,
            max_size: DEFAULT_MAX_BODY_SIZE,
        }
    }
}

impl StreamingBodyConfig {
    /// A configuration with the default settings.
    pub fn new() -> (c: Self)
        ensures
            c.streaming_threshold == DEFAULT_STREAMING_THRESHOLD,
            c.chunk_size == 8192,
            c.max_size == DEFAULT_MAX_BODY_SIZE,
    {
        Self::default()
    }

    /// Sets the streaming threshold.
    pub fn with_streaming_threshold(self, threshold: usize) -> (c: Self)
        ensures
            c == (StreamingBodyConfig { streaming_threshold: threshold, ..self }),
    {
        StreamingBodyConfig { streaming_threshold: threshold, ..self }
    }

    /// Sets the read size; a size of zero becomes one.
    pub fn with_chunk_size(self, size: usize) -> (c: Self)
        ensures
            c == (StreamingBodyConfig { chunk_size: if size == 0 { 1 } else { size }, ..self }),
    {
        let size = if size == 0 { 1 } else { size };
        StreamingBodyConfig { chunk_size: size, ..self }
    }

    /// Sets the maximum body size.
    pub fn with_max_size(self, size: usize) -> (c: Self)
        ensures
            c == (StreamingBodyConfig { max_size: size, ..self }),
    {
        StreamingBodyConfig { max_size: size, ..self }
    }

    /// A body of this length is streamed.
    pub fn should_stream(&self, content_length: usize) -> (r: bool)
        ensures
            r == (content_length > self.streaming_threshold),
    {
        content_length > self.streaming_threshold
    }
}

} // verus!

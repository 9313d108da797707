//! Decision logic of the streaming body readers.
//!
//! A stream is a state machine: `poll_next` decides what happens next and
//! either yields a chunk, ends, fails, or asks its driver to read from the
//! connection (`StreamPoll::Read`). The driver performs the read and reports
//! what came back through `on_read`.
use vstd::prelude::*;
use crate::body::{
    size_line_value, parse_size_line, ChunkLineError, StreamingBodyConfig, MAX_SINGLE_CHUNK,
    DEFAULT_MAX_BODY_SIZE, chunked_bytes, chunked_decode, chunked_wf, crlf_bytes, frame_bytes, frame_wf,
    frames_bytes, frames_data, lemma_chunked_decode_wf, no_cr, trailer_bytes, ChunkFrame,
};
use crate::scan::{copy_range, crlf_at, find_crlf, find_crlf_from, lemma_find_crlf_bounds, lemma_find_crlf_first, lemma_find_crlf_shift};

verus! {

/// Errors of a streamed request body.
#[derive(Debug, Clone, PartialEq, Eq)]
pub enum RequestBodyStreamError {
    /// The body exceeds the maximum size.
    TooLarge { received: usize, max: usize },
    /// The connection closed before the body was complete.
    ConnectionClosed,
    /// A read or framing error.
    Io(String),
}

/// The mathematical form of a [`RequestBodyStreamError`].
pub enum StreamErrorView {
    TooLarge { received: usize, max: usize },
    ConnectionClosed,
    Io(Seq<char>),
}

impl View for RequestBodyStreamError {
    type V = StreamErrorView;

    open spec fn view(&self) -> StreamErrorView {
        match self {
            RequestBodyStreamError::TooLarge { received, max } => StreamErrorView::TooLarge {
                received: *received,
                max: *max,
            },
            RequestBodyStreamError::ConnectionClosed => StreamErrorView::ConnectionClosed,
            RequestBodyStreamError::Io(s) => StreamErrorView::Io(s@),
        }
    }
}

/// What one poll of a stream decides.
#[derive(Debug)]
pub enum StreamPoll {
    /// A chunk of body bytes.
    Chunk(Vec<u8>),
    /// The body is complete (or the stream is finished after an error).
    End,
    /// The stream failed.
    Fail(RequestBodyStreamError),
    /// The driver must read at most this many bytes and report them with `on_read`.
    Read(usize),
    /// The driver's read is pending; poll again later.
    Pending,
}

/// The mathematical form of a [`StreamPoll`].
pub enum PollView {
    Chunk(Seq<u8>),
    End,
    Fail(StreamErrorView),
    Read(nat),
    Pending,
}

impl View for StreamPoll {
    type V = PollView;

    open spec fn view(&self) -> PollView {
        match self {
            StreamPoll::Chunk(v) => PollView::Chunk(v@),
            StreamPoll::End => PollView::End,
            StreamPoll::Fail(e) => PollView::Fail(e@),
            StreamPoll::Read(n) => PollView::Read(*n as nat),
            StreamPoll::Pending => PollView::Pending,
        }
    }
}

/// What the driver's read gave.
#[derive(Debug)]
pub enum ReadOutcome {
    /// These bytes were read (none at end of input).
    Data(Vec<u8>),
    /// The read failed with this message.
    Failed(String),
    /// The read is not ready yet.
    Pending,
}

pub open spec fn io_fail(msg: Seq<char>) -> PollView {
    PollView::Fail(StreamErrorView::Io(msg))
}

fn io_error(msg: &str) -> (e: RequestBodyStreamError)
    ensures
        e@ == StreamErrorView::Io(msg@),
{
    RequestBodyStreamError::Io(String::from_str(msg))
}

// ============================================================================
// Content-Length stream
// ============================================================================

/// Streams a Content-Length body: first the bytes already buffered by the
/// parser, then reads from the connection until the expected length.
pub struct AsyncContentLengthStream {
    initial_buffer: Vec<u8>,
    initial_position: usize,
    expected_size: usize,
    bytes_read: usize,
    chunk_size: usize,
    max_size: usize,
    complete: bool,
    error: bool,
    has_reader: bool,
    pending_read: usize,
}

/// The state of an [`AsyncContentLengthStream`].
pub struct ContentLengthStreamView {
    pub initial: Seq<u8>,
    pub initial_position: int,
    pub expected_size: int,
    pub bytes_read: int,
    pub chunk_size: int,
    pub max_size: int,
    pub complete: bool,
    pub error: bool,
    pub has_reader: bool,
    pub pending_read: int,
}

impl View for AsyncContentLengthStream {
    type V = ContentLengthStreamView;

    closed spec fn view(&self) -> ContentLengthStreamView {
        ContentLengthStreamView {
            initial: self.initial_buffer@,
            initial_position: self.initial_position as int,
            expected_size: self.expected_size as int,
            bytes_read: self.bytes_read as int,
            chunk_size: self.chunk_size as int,
            max_size: self.max_size as int,
            complete: self.complete,
            error: self.error,
            has_reader: self.has_reader,
            pending_read: self.pending_read as int,
        }
    }
}

pub open spec fn min3(a: int, b: int, c: int) -> int {
    let m = if a < b { a } else { b };
    if m < c { m } else { c }
}

/// The decision of one poll of a Content-Length stream, and its next state.
pub open spec fn cl_poll(v0: ContentLengthStreamView) -> (ContentLengthStreamView, PollView) {
    let v = ContentLengthStreamView { pending_read: 0, ..v0 };
    if v.complete || v.error {
        (v, PollView::End)
    } else if v.bytes_read > v.max_size {
        (
            ContentLengthStreamView { error: true, ..v },
            PollView::Fail(StreamErrorView::TooLarge { received: v.bytes_read as usize, max: v.max_size as usize }),
        )
    } else if v.bytes_read >= v.expected_size {
        (ContentLengthStreamView { complete: true, ..v }, PollView::End)
    } else if v.max_size - v.bytes_read == 0 {
        (
            ContentLengthStreamView { error: true, ..v },
            PollView::Fail(StreamErrorView::TooLarge { received: (v.bytes_read + 1) as usize, max: v.max_size as usize }),
        )
    } else {
        let for_body = v.expected_size - v.bytes_read;
        let budget = v.max_size - v.bytes_read;
        let initial_remaining = if v.initial.len() > v.initial_position { v.initial.len() - v.initial_position } else { 0 };
        let n = min3(min3(v.chunk_size, initial_remaining, for_body), budget, budget);
        if initial_remaining > 0 && n > 0 {
            (
                ContentLengthStreamView {
                    initial_position: v.initial_position + n,
                    bytes_read: v.bytes_read + n,
                    ..v
                },
                PollView::Chunk(v.initial.subrange(v.initial_position, v.initial_position + n)),
            )
        } else {
            let to_read = min3(v.chunk_size, for_body, budget);
            if to_read == 0 {
                (ContentLengthStreamView { complete: true, ..v }, PollView::End)
            } else if !v.has_reader {
                (
                    ContentLengthStreamView { error: true, ..v },
                    PollView::Fail(StreamErrorView::ConnectionClosed),
                )
            } else {
                (ContentLengthStreamView { pending_read: to_read, ..v }, PollView::Read(to_read as nat))
            }
        }
    }
}

/// A Content-Length stream within its body: what it has yielded, counting
/// a read it asked for, stays within the announced length and the size
/// limit, and the bytes taken from the initial buffer are among those
/// yielded.
pub open spec fn cl_within_body(v: ContentLengthStreamView) -> bool {
    &&& 0 <= v.initial_position <= v.bytes_read
    &&& v.initial_position <= v.initial.len()
    &&& 0 <= v.pending_read
    &&& v.bytes_read + v.pending_read <= v.expected_size
    &&& v.bytes_read + v.pending_read <= v.max_size
}

/// A Content-Length stream never yields more than the announced length: a
/// poll keeps what has been yielded, and any read it asks for, within
/// `expected_size` and `max_size`; a chunk from the initial buffer is the next bytes of
/// that buffer and ends within the first `expected_size` of them, so the
/// chunks taken from it form a prefix of `initial[..expected_size]`.
pub proof fn lemma_cl_poll_within_body(v: ContentLengthStreamView)
    requires
        cl_within_body(v),
        v.chunk_size >= 0,
        v.max_size >= 0,
    ensures
        cl_within_body(cl_poll(v).0),
        cl_poll(v).0.expected_size == v.expected_size,
        cl_poll(v).0.initial == v.initial,
        cl_poll(v).1 matches PollView::Chunk(c) ==> {
            &&& c.len() > 0
            &&& cl_poll(v).0.initial_position == v.initial_position + c.len() <= v.expected_size
            &&& c == v.initial.subrange(v.initial_position, v.initial_position + c.len())
            &&& cl_poll(v).0.bytes_read == v.bytes_read + c.len()
        },
{
}

/// Taking in a read of at most the bytes asked for keeps the stream within
/// its body.
pub proof fn lemma_cl_read_within_body(v: ContentLengthStreamView, n: int)
    requires
        cl_within_body(v),
        0 <= n <= v.pending_read,
    ensures
        cl_within_body(ContentLengthStreamView { bytes_read: v.bytes_read + n, pending_read: 0, ..v }),
{
}

impl AsyncContentLengthStream {
    pub closed spec fn wf(&self) -> bool {
        &&& self.initial_position <= self.initial_buffer.len()
        &&& self.pending_read <= self.chunk_size
        &&& self.bytes_read + self.pending_read <= usize::MAX
        &&& (self.pending_read > 0 ==> self.bytes_read + self.pending_read <= self.max_size)
    }

    /// Creates a stream over the parser's buffered bytes and a connection.
    pub fn new(initial_buffer: Vec<u8>, content_length: usize, config: &StreamingBodyConfig) -> (s: Self)
        ensures
            s.wf(),
            s@ == (ContentLengthStreamView {
                initial: initial_buffer@,
                initial_position: 0,
                expected_size: content_length as int,
                bytes_read: 0,
                chunk_size: config.chunk_size as int,
                max_size: config.max_size as int,
                complete: false,
                error: false,
                has_reader: true,
                pending_read: 0,
            }),
    {
        AsyncContentLengthStream {
            initial_buffer,
            initial_position: 0,
            expected_size: content_length,
            bytes_read: 0,
            chunk_size: config.chunk_size,
            max_size: config.max_size,
            complete: false,
            error: false,
            has_reader: true,
            pending_read: 0,
        }
    }

    /// Creates a stream with the default configuration.
    pub fn with_defaults(initial_buffer: Vec<u8>, content_length: usize) -> (s: Self)
        ensures
            s.wf(),
            s@ == (ContentLengthStreamView {
                initial: initial_buffer@,
                initial_position: 0,
                expected_size: content_length as int,
                bytes_read: 0,
                chunk_size: 8192,
                max_size: DEFAULT_MAX_BODY_SIZE as int,
                complete: false,
                error: false,
                has_reader: true,
                pending_read: 0,
            }),
    {
        Self::new(initial_buffer, content_length, &StreamingBodyConfig::default())
    }

    /// The expected total size.
    pub fn expected_size(&self) -> (r: usize)
        ensures
            r == self@.expected_size,
    {
        self.expected_size
    }

    /// The number of bytes yielded so far.
    pub fn bytes_read(&self) -> (r: usize)
        ensures
            r == self@.bytes_read,
    {
        self.bytes_read
    }

    /// The number of bytes still expected.
    pub fn remaining(&self) -> (r: usize)
        ensures
            r == (if self@.expected_size > self@.bytes_read { self@.expected_size - self@.bytes_read } else { 0 }),
    {
        if self.expected_size > self.bytes_read {
            self.expected_size - self.bytes_read
        } else {
            0
        }
    }

    /// The stream has yielded the whole body.
    pub fn is_complete(&self) -> (r: bool)
        ensures
            r == self@.complete,
    {
        self.complete
    }

    fn initial_remaining(&self) -> (r: usize)
        ensures
            r == (if self@.initial.len() > self@.initial_position { self@.initial.len() - self@.initial_position } else { 0 }),
    {
        if self.initial_buffer.len() > self.initial_position {
            self.initial_buffer.len() - self.initial_position
        } else {
            0
        }
    }

    /// Decides the next step of the stream.
    pub fn poll_next(&mut self) -> (p: StreamPoll)
        requires
            old(self).wf(),
        ensures
            final(self).wf(),
            (final(self)@, p@) == cl_poll(old(self)@),
    {
        self.pending_read = 0;
        if self.complete || self.error {
            return StreamPoll::End;
        }
        if self.bytes_read > self.max_size {
            self.error = true;
            return StreamPoll::Fail(
                RequestBodyStreamError::TooLarge { received: self.bytes_read, max: self.max_size },
            );
        }
        if self.bytes_read >= self.expected_size {
            self.complete = true;
            return StreamPoll::End;
        }
        let for_body = self.expected_size - self.bytes_read;
        let budget = self.max_size - self.bytes_read;
        if budget == 0 {
            self.error = true;
            return StreamPoll::Fail(
                RequestBodyStreamError::TooLarge { received: self.bytes_read + 1, max: self.max_size },
            );
        }
        let initial_remaining = self.initial_remaining();
        if initial_remaining > 0 {
            let mut n = self.chunk_size;
            if initial_remaining < n {
                n = initial_remaining;
            }
            if for_body < n {
                n = for_body;
            }
            if budget < n {
                n = budget;
            }
            if n > 0 {
                let start = self.initial_position;
                let chunk = copy_range(self.initial_buffer.as_slice(), start, start + n);
                self.initial_position = start + n;
                self.bytes_read = self.bytes_read + n;
                return StreamPoll::Chunk(chunk);
            }
        }
        let mut to_read = self.chunk_size;
        if for_body < to_read {
            to_read = for_body;
        }
        if budget < to_read {
            to_read = budget;
        }
        if to_read == 0 {
            self.complete = true;
            return StreamPoll::End;
        }
        if !self.has_reader {
            self.error = true;
            return StreamPoll::Fail(RequestBodyStreamError::ConnectionClosed);
        }
        self.pending_read = to_read;
        StreamPoll::Read(to_read)
    }

    /// Takes in what the driver's read gave after `StreamPoll::Read(n)`; the
    /// data is at most `n` bytes long.
    pub fn on_read(&mut self, outcome: ReadOutcome) -> (p: StreamPoll)
        requires
            old(self).wf(),
            outcome matches ReadOutcome::Data(d) ==> d@.len() <= old(self)@.pending_read,
        ensures
            final(self).wf(),
            final(self)@.initial == old(self)@.initial,
            final(self)@.expected_size == old(self)@.expected_size,
            final(self)@.max_size == old(self)@.max_size,
            final(self)@.chunk_size == old(self)@.chunk_size,
            match outcome {
                ReadOutcome::Data(d) => if d@.len() == 0 {
                    final(self)@ == (ContentLengthStreamView { error: true, has_reader: false, pending_read: 0, ..old(self)@ })
                        && p@ == PollView::Fail(StreamErrorView::ConnectionClosed)
                } else {
                    final(self)@ == (ContentLengthStreamView {
                        bytes_read: old(self)@.bytes_read + d@.len(),
                        pending_read: 0,
                        ..old(self)@
                    }) && p@ == PollView::Chunk(d@)
                },
                ReadOutcome::Failed(msg) => final(self)@ == (ContentLengthStreamView { error: true, has_reader: false, pending_read: 0, ..old(self)@ })
                    && p@ == PollView::Fail(StreamErrorView::Io(msg@)),
                ReadOutcome::Pending => final(self)@ == (ContentLengthStreamView { pending_read: 0, ..old(self)@ })
                    && p@ == PollView::Pending,
            },
    {
        self.pending_read = 0;
        match outcome {
            ReadOutcome::Data(d) => {
                if d.len() == 0 {
                    self.error = true;
                    self.has_reader = false;
                    StreamPoll::Fail(RequestBodyStreamError::ConnectionClosed)
                } else {
                    self.bytes_read = self.bytes_read + d.len();
                    StreamPoll::Chunk(d)
                }
            },
            ReadOutcome::Failed(msg) => {
                self.error = true;
                self.has_reader = false;
                StreamPoll::Fail(RequestBodyStreamError::Io(msg))
            },
            ReadOutcome::Pending => StreamPoll::Pending,
        }
    }
}


// ============================================================================
// Chunked stream
// ============================================================================

/// Where the chunked stream stands.
#[derive(Debug, Clone, Copy, PartialEq, Eq, Structural)]
pub enum AsyncChunkedState {
    ChunkSize,
    ChunkData { remaining: usize },
    ChunkDataEnd,
    Trailers,
    Complete,
    Error,
}

/// Longest chunk size line accepted without its CRLF.
pub const MAX_CHUNK_SIZE_LINE: usize = 1024;

/// Longest trailer line accepted without its CRLF.
pub const MAX_TRAILER_LINE: usize = 8192;

/// Streams a chunked body, decoding chunks as their bytes arrive.
pub struct AsyncChunkedStream {
    state: AsyncChunkedState,
    bytes_decoded: usize,
    max_size: usize,
    chunk_size: usize,
    buffer: Vec<u8>,
    position: usize,
    has_reader: bool,
}

/// The state of an [`AsyncChunkedStream`]: `pending` holds the bytes
/// received and not yet consumed.
pub struct ChunkedStreamView {
    pub state: AsyncChunkedState,
    pub bytes_decoded: int,
    pub max_size: int,
    pub chunk_size: int,
    pub pending: Seq<u8>,
    pub has_reader: bool,
}

impl View for AsyncChunkedStream {
    type V = ChunkedStreamView;

    closed spec fn view(&self) -> ChunkedStreamView {
        ChunkedStreamView {
            state: self.state,
            bytes_decoded: self.bytes_decoded as int,
            max_size: self.max_size as int,
            chunk_size: self.chunk_size as int,
            pending: self.buffer@.subrange(self.position as int, self.buffer@.len() as int),
            has_reader: self.has_reader,
        }
    }
}

/// Asks the driver for at most `want` more bytes.
pub open spec fn chunked_read_more(v: ChunkedStreamView, want: int) -> (ChunkedStreamView, PollView) {
    let m = if want < v.chunk_size { want } else { v.chunk_size };
    if m == 0 {
        (ChunkedStreamView { state: AsyncChunkedState::Error, ..v }, io_fail("invalid read buffer size"@))
    } else if !v.has_reader {
        (ChunkedStreamView { state: AsyncChunkedState::Error, ..v }, PollView::Fail(StreamErrorView::ConnectionClosed))
    } else {
        (v, PollView::Read(m as nat))
    }
}

pub open spec fn chunked_fail(v: ChunkedStreamView, e: StreamErrorView) -> (ChunkedStreamView, PollView) {
    (ChunkedStreamView { state: AsyncChunkedState::Error, ..v }, PollView::Fail(e))
}

/// The decision of one poll of a chunked stream, and its next state.
pub open spec fn chunked_poll(v: ChunkedStreamView) -> (ChunkedStreamView, PollView)
    decreases v.pending.len(),
{
    let p = v.pending;
    match v.state {
        AsyncChunkedState::Complete | AsyncChunkedState::Error => (v, PollView::End),
        AsyncChunkedState::ChunkSize => match find_crlf(p, 0) {
            Some(e) => match size_line_value(p.take(e)) {
                Err(ChunkLineError::InvalidUtf8) => chunked_fail(v, StreamErrorView::Io("invalid UTF-8 in chunk size"@)),
                Err(_) => chunked_fail(v, StreamErrorView::Io("invalid hex chunk size"@)),
                Ok(size) => {
                    let sum = if v.bytes_decoded + size > usize::MAX { usize::MAX as int } else { v.bytes_decoded + size };
                    if size > 0 && sum > v.max_size {
                        chunked_fail(v, StreamErrorView::TooLarge { received: v.bytes_decoded as usize, max: v.max_size as usize })
                    } else if size > MAX_SINGLE_CHUNK {
                        chunked_fail(v, StreamErrorView::Io("chunk size exceeds 16MB limit"@))
                    } else if 0 <= e && e + 2 <= p.len() {
                        let st = if size == 0 { AsyncChunkedState::Trailers } else { AsyncChunkedState::ChunkData { remaining: size as usize } };
                        chunked_poll(ChunkedStreamView { state: st, pending: p.skip(e + 2), ..v })
                    } else {
                        (v, PollView::End)
                    }
                },
            },
            None => if p.len() > MAX_CHUNK_SIZE_LINE {
                chunked_fail(v, StreamErrorView::Io("chunk size line too long"@))
            } else {
                chunked_read_more(v, 1)
            },
        },
        AsyncChunkedState::ChunkData { remaining } => {
            if remaining > 0 && v.bytes_decoded >= v.max_size {
                chunked_fail(v, StreamErrorView::TooLarge { received: v.bytes_decoded as usize, max: v.max_size as usize })
            } else {
                let n = min3(remaining as int, p.len() as int, v.chunk_size);
                if n > 0 {
                    let st = if remaining - n == 0 { AsyncChunkedState::ChunkDataEnd } else { AsyncChunkedState::ChunkData { remaining: (remaining - n) as usize } };
                    (
                        ChunkedStreamView { state: st, pending: p.skip(n), bytes_decoded: v.bytes_decoded + n, ..v },
                        PollView::Chunk(p.take(n)),
                    )
                } else {
                    let w = if remaining < v.chunk_size { remaining as int } else { v.chunk_size };
                    chunked_read_more(v, if w < 1 { 1 } else { w })
                }
            }
        },
        AsyncChunkedState::ChunkDataEnd => {
            if p.len() >= 2 {
                if crlf_at(p, 0) {
                    chunked_poll(ChunkedStreamView { state: AsyncChunkedState::ChunkSize, pending: p.skip(2), ..v })
                } else {
                    chunked_fail(v, StreamErrorView::Io("expected CRLF after chunk data"@))
                }
            } else {
                chunked_read_more(v, 1)
            }
        },
        AsyncChunkedState::Trailers => {
            if crlf_at(p, 0) {
                (ChunkedStreamView { state: AsyncChunkedState::Complete, pending: p.skip(2), ..v }, PollView::End)
            } else if p.len() > MAX_TRAILER_LINE {
                chunked_fail(v, StreamErrorView::Io("trailer line too long"@))
            } else {
                match find_crlf(p, 0) {
                    Some(e) => if 0 <= e && e + 2 <= p.len() {
                        chunked_poll(ChunkedStreamView { pending: p.skip(e + 2), ..v })
                    } else {
                        (v, PollView::End)
                    },
                    None => chunked_read_more(v, 1),
                }
            }
        },
    }
}

impl AsyncChunkedStream {
    pub closed spec fn wf(&self) -> bool {
        &&& self.position <= self.buffer.len()
        &&& self.bytes_decoded <= self.max_size
        &&& (self.state matches AsyncChunkedState::ChunkData { remaining } ==> remaining
            <= MAX_SINGLE_CHUNK && self.bytes_decoded + remaining <= self.max_size)
    }

    fn from_parts(initial_buffer: Vec<u8>, config: &StreamingBodyConfig) -> (s: Self)
        ensures
            s.wf(),
            s@ == (ChunkedStreamView {
                state: AsyncChunkedState::ChunkSize,
                bytes_decoded: 0,
                max_size: config.max_size as int,
                chunk_size: config.chunk_size as int,
                pending: initial_buffer@,
                has_reader: true,
            }),
    {
        let s = AsyncChunkedStream {
            state: AsyncChunkedState::ChunkSize,
            bytes_decoded: 0,
            max_size: config.max_size,
            chunk_size: config.chunk_size,
            buffer: initial_buffer,
            position: 0,
            has_reader: true,
        };
        assert(s.buffer@.subrange(0, s.buffer@.len() as int) == s.buffer@);
        s
    }

    /// Creates a chunked stream; the buffered bytes must not exceed the limit.
    pub fn new(initial_buffer: Vec<u8>, config: &StreamingBodyConfig) -> (s: Self)
        requires
            initial_buffer@.len() <= config.max_size,
        ensures
            s.wf(),
            s@ == (ChunkedStreamView {
                state: AsyncChunkedState::ChunkSize,
                bytes_decoded: 0,
                max_size: config.max_size as int,
                chunk_size: config.chunk_size as int,
                pending: initial_buffer@,
                has_reader: true,
            }),
    {
        Self::from_parts(initial_buffer, config)
    }

    /// Creates a chunked stream, refusing buffered bytes above the limit.
    pub fn try_new(initial_buffer: Vec<u8>, config: &StreamingBodyConfig) -> (r: Result<Self, RequestBodyStreamError>)
        ensures
            initial_buffer@.len() > config.max_size ==> (r matches Err(e) && e is Io),
            initial_buffer@.len() <= config.max_size ==> (r matches Ok(s) && s.wf() && s@ == (ChunkedStreamView {
                state: AsyncChunkedState::ChunkSize,
                bytes_decoded: 0,
                max_size: config.max_size as int,
                chunk_size: config.chunk_size as int,
                pending: initial_buffer@,
                has_reader: true,
            })),
    {
        if initial_buffer.len() > config.max_size {
            let mut msg = String::new();
            crate::text::push_str(&mut msg, "initial buffer size ");
            crate::text::push_decimal(&mut msg, initial_buffer.len() as u64);
            crate::text::push_str(&mut msg, " exceeds max size ");
            crate::text::push_decimal(&mut msg, config.max_size as u64);
            return Err(RequestBodyStreamError::Io(msg));
        }
        Ok(Self::from_parts(initial_buffer, config))
    }

    /// Creates a chunked stream with the default configuration.
    pub fn with_defaults(initial_buffer: Vec<u8>) -> (s: Self)
        requires
            initial_buffer@.len() <= DEFAULT_MAX_BODY_SIZE,
        ensures
            s.wf(),
            s@ == (ChunkedStreamView {
                state: AsyncChunkedState::ChunkSize,
                bytes_decoded: 0,
                max_size: DEFAULT_MAX_BODY_SIZE as int,
                chunk_size: 8192,
                pending: initial_buffer@,
                has_reader: true,
            }),
    {
        Self::new(initial_buffer, &StreamingBodyConfig::default())
    }

    /// A chunked stream never decodes more than its size limit: the
    /// constructors establish it and every step keeps it.
    pub proof fn lemma_decoded_within_limit(&self)
        requires
            self.wf(),
        ensures
            self@.bytes_decoded <= self@.max_size,
    {
    }

    /// The number of body bytes decoded so far.
    pub fn bytes_decoded(&self) -> (r: usize)
        ensures
            r == self@.bytes_decoded,
    {
        self.bytes_decoded
    }

    /// The body is complete.
    pub fn is_complete(&self) -> (r: bool)
        ensures
            r == (self@.state == AsyncChunkedState::Complete),
    {
        self.state == AsyncChunkedState::Complete
    }

    /// Drops consumed bytes once they make up a large part of the buffer.
    fn compact_buffer_if_needed(&mut self)
        requires
            old(self).wf(),
        ensures
            final(self).wf(),
            final(self)@ == old(self)@,
            old(self).position >= old(self).buffer@.len() ==> final(self).buffer@.len() == 0 && final(self).position
                == 0,
            0 < old(self).position < old(self).buffer@.len() && (old(self).position > 8192 || old(self).position
                > old(self).buffer@.len() / 2) ==> final(self).buffer@ == old(self).buffer@.subrange(
                old(self).position as int,
                old(self).buffer@.len() as int,
            ) && final(self).position == 0,
            !(old(self).position >= old(self).buffer@.len()) && !(old(self).position > 8192 || old(self).position
                > old(self).buffer@.len() / 2) ==> final(self).buffer@ == old(self).buffer@ && final(self).position
                == old(self).position,
    {
        if self.position == 0 {
            return;
        }
        if self.position >= self.buffer.len() {
            assert(self@.pending =~= Seq::<u8>::empty());
            self.buffer = Vec::new();
            self.position = 0;
            assert(self.buffer@.subrange(0, 0) == Seq::<u8>::empty());
            return;
        }
        if self.position > 8192 || self.position > self.buffer.len() / 2 {
            let rest = copy_range(self.buffer.as_slice(), self.position, self.buffer.len());
            self.buffer = rest;
            self.position = 0;
            assert(self.buffer@.subrange(0, self.buffer@.len() as int) == self.buffer@);
        }
    }

    fn read_more(&mut self, want: usize) -> (p: StreamPoll)
        requires
            old(self).wf(),
        ensures
            final(self).wf(),
            (final(self)@, p@) == chunked_read_more(old(self)@, want as int),
    {
        self.compact_buffer_if_needed();
        let m = if want < self.chunk_size { want } else { self.chunk_size };
        if m == 0 {
            self.state = AsyncChunkedState::Error;
            return StreamPoll::Fail(io_error("invalid read buffer size"));
        }
        if !self.has_reader {
            self.state = AsyncChunkedState::Error;
            return StreamPoll::Fail(RequestBodyStreamError::ConnectionClosed);
        }
        StreamPoll::Read(m)
    }

    fn fail(&mut self, e: RequestBodyStreamError) -> (p: StreamPoll)
        requires
            old(self).wf(),
        ensures
            final(self).wf(),
            (final(self)@, p@) == chunked_fail(old(self)@, e@),
    {
        self.state = AsyncChunkedState::Error;
        StreamPoll::Fail(e)
    }

    /// Takes in what the driver's read gave after `StreamPoll::Read(n)`.
    /// Bytes read are appended to the pending input and the stream is polled
    /// again; no bytes means the connection closed.
    pub fn on_read(&mut self, outcome: ReadOutcome) -> (p: StreamPoll)
        requires
            old(self).wf(),
            old(self)@.bytes_decoded + MAX_SINGLE_CHUNK <= usize::MAX,
        ensures
            final(self).wf(),
            match outcome {
                ReadOutcome::Data(d) => if d@.len() == 0 {
                    (final(self)@, p@) == chunked_fail(old(self)@, StreamErrorView::ConnectionClosed)
                } else {
                    (final(self)@, p@) == chunked_poll(ChunkedStreamView { pending: old(self)@.pending + d@, ..old(self)@ })
                },
                ReadOutcome::Failed(msg) => (final(self)@, p@) == chunked_fail(old(self)@, StreamErrorView::Io(msg@)),
                ReadOutcome::Pending => final(self)@ == old(self)@ && p@ == PollView::Pending,
            },
    {
        match outcome {
            ReadOutcome::Data(d) => {
                if d.len() == 0 {
                    self.fail(RequestBodyStreamError::ConnectionClosed)
                } else {
                    let ghost before = self@;
                    let ghost data = d@;
                    let mut d = d;
                    self.buffer.append(&mut d);
                    assert(self@.pending =~= before.pending + data);
                    self.poll_next()
                }
            },
            ReadOutcome::Failed(msg) => self.fail(RequestBodyStreamError::Io(msg)),
            ReadOutcome::Pending => StreamPoll::Pending,
        }
    }

    /// Decides the next step of the stream. The count of decoded bytes must
    /// leave room for one more chunk in a `usize`.
    #[verifier::rlimit(60)]
    pub fn poll_next(&mut self) -> (p: StreamPoll)
        requires
            old(self).wf(),
            old(self)@.bytes_decoded + MAX_SINGLE_CHUNK <= usize::MAX,
        ensures
            final(self).wf(),
            (final(self)@, p@) == chunked_poll(old(self)@),
    {
        let ghost goal = chunked_poll(self@);
        loop
            invariant
                self.wf(),
                goal == chunked_poll(self@),
                goal == chunked_poll(old(self)@),
                self@.bytes_decoded == old(self)@.bytes_decoded,
                old(self)@.bytes_decoded + MAX_SINGLE_CHUNK <= usize::MAX,
            decreases self@.pending.len(),
        {
            let ghost pend = self@.pending;
            let ghost pos0 = self.position as int;
            assert(forall|i: int| 0 <= i < pend.len() ==> pend[i] == self.buffer@[self.position + i]);
            match self.state {
                AsyncChunkedState::Complete | AsyncChunkedState::Error => {
                    return StreamPoll::End;
                },
                AsyncChunkedState::ChunkSize => {
                    proof {
                        lemma_find_crlf_bounds(pend, 0);
                        lemma_find_crlf_shift(self.buffer@, self.position as int);
                    }
                    match find_crlf_from(self.buffer.as_slice(), self.position) {
                        Some(e) => {
                            let line = copy_range(self.buffer.as_slice(), self.position, e);
                            assert(line@ == pend.take(e - pos0));
                            let size = match parse_size_line(line.as_slice()) {
                                Ok(v) => v,
                                Err(ChunkLineError::InvalidUtf8) => {
                                    return self.fail(io_error("invalid UTF-8 in chunk size"));
                                },
                                Err(_) => {
                                    return self.fail(io_error("invalid hex chunk size"));
                                },
                            };
                            let sum = if self.bytes_decoded > usize::MAX - size {
                                usize::MAX
                            } else {
                                self.bytes_decoded + size
                            };
                            if size > 0 && sum > self.max_size {
                                return self.fail(
                                    RequestBodyStreamError::TooLarge {
                                        received: self.bytes_decoded,
                                        max: self.max_size,
                                    },
                                );
                            }
                            if size > MAX_SINGLE_CHUNK {
                                return self.fail(io_error("chunk size exceeds 16MB limit"));
                            }
                            self.position = e + 2;
                            assert(self@.pending == pend.skip(e - pos0 + 2));
                            if size == 0 {
                                self.state = AsyncChunkedState::Trailers;
                            } else {
                                self.state = AsyncChunkedState::ChunkData { remaining: size };
                            }
                        },
                        None => {
                            if self.buffer.len() - self.position > MAX_CHUNK_SIZE_LINE {
                                return self.fail(io_error("chunk size line too long"));
                            }
                            return self.read_more(1);
                        },
                    }
                },
                AsyncChunkedState::ChunkData { remaining } => {
                    if remaining > 0 && self.bytes_decoded >= self.max_size {
                        return self.fail(
                            RequestBodyStreamError::TooLarge {
                                received: self.bytes_decoded,
                                max: self.max_size,
                            },
                        );
                    }
                    let avail = self.buffer.len() - self.position;
                    let mut n = remaining;
                    if avail < n {
                        n = avail;
                    }
                    if self.chunk_size < n {
                        n = self.chunk_size;
                    }
                    if n > 0 {
                        let chunk = copy_range(self.buffer.as_slice(), self.position, self.position + n);
                        assert(chunk@ == pend.take(n as int));
                        self.position = self.position + n;
                        assert(self@.pending == pend.skip(n as int));
                        self.bytes_decoded = self.bytes_decoded + n;
                        if remaining - n == 0 {
                            self.state = AsyncChunkedState::ChunkDataEnd;
                        } else {
                            self.state = AsyncChunkedState::ChunkData { remaining: remaining - n };
                        }
                        return StreamPoll::Chunk(chunk);
                    }
                    let w = if remaining < self.chunk_size { remaining } else { self.chunk_size };
                    return self.read_more(if w < 1 { 1 } else { w });
                },
                AsyncChunkedState::ChunkDataEnd => {
                    if self.buffer.len() - self.position >= 2 {
                        if self.buffer[self.position] == 13u8 && self.buffer[self.position + 1] == 10u8 {
                            self.position = self.position + 2;
                            assert(self@.pending == pend.skip(2));
                            self.state = AsyncChunkedState::ChunkSize;
                        } else {
                            return self.fail(io_error("expected CRLF after chunk data"));
                        }
                    } else {
                        return self.read_more(1);
                    }
                },
                AsyncChunkedState::Trailers => {
                    proof {
                        lemma_find_crlf_bounds(pend, 0);
                        lemma_find_crlf_shift(self.buffer@, self.position as int);
                    }
                    if self.buffer.len() - self.position >= 2 && self.buffer[self.position] == 13u8
                        && self.buffer[self.position + 1] == 10u8 {
                        self.position = self.position + 2;
                        assert(self@.pending == pend.skip(2));
                        self.state = AsyncChunkedState::Complete;
                        return StreamPoll::End;
                    }
                    if self.buffer.len() - self.position > MAX_TRAILER_LINE {
                        return self.fail(io_error("trailer line too long"));
                    }
                    match find_crlf_from(self.buffer.as_slice(), self.position) {
                        Some(e) => {
                            self.position = e + 2;
                            assert(self@.pending == pend.skip(e - pos0 + 2));
                        },
                        None => {
                            return self.read_more(1);
                        },
                    }
                },
            }
        }
    }
}


// ============================================================================
// A whole chunked body through the stream
// ============================================================================

/// Polls a chunked stream until a poll yields no chunk: the final state,
/// the chunks in order, and the poll that ended the run.
pub open spec fn chunked_poll_all(v: ChunkedStreamView) -> (ChunkedStreamView, Seq<Seq<u8>>, PollView)
    decreases v.pending.len(),
{
    let (v2, p) = chunked_poll(v);
    match p {
        PollView::Chunk(c) => if v2.pending.len() < v.pending.len() {
            let (v3, cs, last) = chunked_poll_all(v2);
            (v3, seq![c] + cs, last)
        } else {
            (v2, seq![c], p)
        },
        _ => (v2, Seq::empty(), p),
    }
}

/// `d` cut into pieces of `k` bytes, the last one shorter.
pub open spec fn chunk_pieces(d: Seq<u8>, k: int) -> Seq<Seq<u8>>
    decreases d.len(),
{
    if d.len() == 0 || k <= 0 {
        Seq::empty()
    } else if d.len() <= k {
        seq![d]
    } else {
        seq![d.take(k)] + chunk_pieces(d.skip(k), k)
    }
}

/// The data of each chunk cut into pieces of `k` bytes, in order.
pub open spec fn frames_pieces(fs: Seq<ChunkFrame>, k: int) -> Seq<Seq<u8>>
    decreases fs.len(),
{
    if fs.len() == 0 {
        Seq::empty()
    } else {
        chunk_pieces(fs[0].data, k) + frames_pieces(fs.drop_first(), k)
    }
}

pub open spec fn prepend_pieces(
    ps: Seq<Seq<u8>>,
    r: (ChunkedStreamView, Seq<Seq<u8>>, PollView),
) -> (ChunkedStreamView, Seq<Seq<u8>>, PollView) {
    (r.0, ps + r.1, r.2)
}

/// The pieces of `d` join to `d`, and each is nonempty and at most `k` long.
pub proof fn lemma_chunk_pieces(d: Seq<u8>, k: int)
    requires
        k > 0,
    ensures
        chunk_pieces(d, k).flatten() == d,
        forall|i: int| 0 <= i < chunk_pieces(d, k).len() ==> 0 < (#[trigger] chunk_pieces(d, k)[i]).len() <= k,
    decreases d.len(),
{
    let ps = chunk_pieces(d, k);
    if d.len() == 0 {
    } else if d.len() <= k {
        ps.lemma_flatten_one_element();
    } else {
        let rest = chunk_pieces(d.skip(k), k);
        lemma_chunk_pieces(d.skip(k), k);
        assert(ps.drop_first() =~= rest);
        assert(ps.flatten() == d.take(k) + rest.flatten());
        assert(d.take(k) + d.skip(k) =~= d);
        assert forall|i: int| 0 <= i < ps.len() implies 0 < (#[trigger] ps[i]).len() <= k by {
            if i > 0 {
                assert(ps[i] == rest[i - 1]);
            }
        }
    }
}

pub proof fn lemma_frames_pieces(fs: Seq<ChunkFrame>, k: int)
    requires
        k > 0,
    ensures
        frames_pieces(fs, k).flatten() == frames_data(fs),
        forall|i: int| 0 <= i < frames_pieces(fs, k).len() ==> 0 < (#[trigger] frames_pieces(fs, k)[i]).len() <= k,
    decreases fs.len(),
{
    if fs.len() > 0 {
        let a = chunk_pieces(fs[0].data, k);
        let b = frames_pieces(fs.drop_first(), k);
        lemma_chunk_pieces(fs[0].data, k);
        lemma_frames_pieces(fs.drop_first(), k);
        vstd::seq_lib::lemma_flatten_concat(a, b);
        assert forall|i: int| 0 <= i < (a + b).len() implies 0 < (#[trigger] (a + b)[i]).len() <= k by {
            if i >= a.len() {
                assert((a + b)[i] == b[i - a.len()]);
            } else {
                assert((a + b)[i] == a[i]);
            }
        }
    }
}

/// A poll that yields a chunk yields a nonempty one, consumes its bytes and
/// counts them as decoded; a poll that fails leaves the stream in its error
/// state, from which every poll ends the stream and changes nothing.
pub proof fn lemma_poll_chunk_consumes(v: ChunkedStreamView)
    ensures
        chunked_poll(v).1 matches PollView::Chunk(c) ==> c.len() > 0 && chunked_poll(v).0.pending.len() + c.len()
            <= v.pending.len() && chunked_poll(v).0.bytes_decoded == v.bytes_decoded + c.len(),
        !(chunked_poll(v).1 is Chunk) ==> chunked_poll(v).0.bytes_decoded == v.bytes_decoded,
        chunked_poll(v).1 is Fail ==> chunked_poll(v).0.state == AsyncChunkedState::Error && chunked_poll(
            chunked_poll(v).0,
        ) == (chunked_poll(v).0, PollView::End),
    decreases v.pending.len(),
{
    let p = v.pending;
    match v.state {
        AsyncChunkedState::ChunkSize => match find_crlf(p, 0) {
            Some(e) => match size_line_value(p.take(e)) {
                Ok(size) => {
                    let sum = if v.bytes_decoded + size > usize::MAX { usize::MAX as int } else { v.bytes_decoded + size };
                    if !(size > 0 && sum > v.max_size) && size <= MAX_SINGLE_CHUNK && 0 <= e && e + 2 <= p.len() {
                        let st = if size == 0 { AsyncChunkedState::Trailers } else { AsyncChunkedState::ChunkData { remaining: size as usize } };
                        lemma_poll_chunk_consumes(ChunkedStreamView { state: st, pending: p.skip(e + 2), ..v });
                    }
                },
                Err(_) => {},
            },
            None => {},
        },
        AsyncChunkedState::ChunkDataEnd => {
            if p.len() >= 2 && crlf_at(p, 0) {
                lemma_poll_chunk_consumes(ChunkedStreamView { state: AsyncChunkedState::ChunkSize, pending: p.skip(2), ..v });
            }
        },
        AsyncChunkedState::Trailers => {
            if !crlf_at(p, 0) && p.len() <= MAX_TRAILER_LINE {
                match find_crlf(p, 0) {
                    Some(e) => if 0 <= e && e + 2 <= p.len() {
                        lemma_poll_chunk_consumes(ChunkedStreamView { pending: p.skip(e + 2), ..v });
                    },
                    None => {},
                }
            }
        },
        _ => {},
    }
}

/// Polling until no chunk comes counts every byte of the chunks as decoded.
pub proof fn lemma_poll_all_counts(v: ChunkedStreamView)
    ensures
        chunked_poll_all(v).0.bytes_decoded == v.bytes_decoded + chunked_poll_all(v).1.flatten().len(),
    decreases v.pending.len(),
{
    lemma_poll_chunk_consumes(v);
    let (v2, p) = chunked_poll(v);
    if let PollView::Chunk(c) = p {
        lemma_poll_all_counts(v2);
        let cs = chunked_poll_all(v2).1;
        vstd::seq_lib::lemma_flatten_concat(seq![c], cs);
        seq![c].lemma_flatten_one_element();
    }
}

/// Two states that poll alike run alike.
proof fn lemma_poll_all_same(v: ChunkedStreamView, w: ChunkedStreamView)
    requires
        chunked_poll(v) == chunked_poll(w),
    ensures
        chunked_poll_all(v) == chunked_poll_all(w),
{
    lemma_poll_chunk_consumes(v);
    lemma_poll_chunk_consumes(w);
}

/// A line without CR, then CRLF, at the front of `p`.
proof fn lemma_front_line(p: Seq<u8>, line: Seq<u8>, tail: Seq<u8>)
    requires
        p == line + crlf_bytes() + tail,
        no_cr(line),
    ensures
        find_crlf(p, 0) == Some(line.len() as int),
        p.take(line.len() as int) == line,
        p.skip(line.len() as int + 2) == tail,
{
    let k = line.len() as int;
    assert(p[k] == 13u8 && p[k + 1] == 10u8);
    assert forall|j: int| 0 <= j < k implies p[j] != 13u8 by {
        assert(p[j] == line[j]);
    }
    lemma_find_crlf_first(p, 0, k);
    assert(p.take(k) =~= line);
    assert(p.skip(k + 2) =~= tail);
}

proof fn lemma_stream_data(v: ChunkedStreamView, d: Seq<u8>, tail: Seq<u8>)
    requires
        v.state == (AsyncChunkedState::ChunkData { remaining: d.len() as usize }),
        0 < d.len() <= MAX_SINGLE_CHUNK,
        v.pending == d + crlf_bytes() + tail,
        0 <= v.bytes_decoded,
        v.bytes_decoded + d.len() <= v.max_size,
        v.chunk_size > 0,
    ensures
        chunked_poll_all(v) == prepend_pieces(
            chunk_pieces(d, v.chunk_size),
            chunked_poll_all(
                ChunkedStreamView {
                    state: AsyncChunkedState::ChunkSize,
                    pending: tail,
                    bytes_decoded: v.bytes_decoded + d.len(),
                    ..v
                },
            ),
        ),
    decreases d.len(),
{
    let p = v.pending;
    let r = d.len() as int;
    let k = v.chunk_size;
    let n = min3(r, p.len() as int, k);
    assert(n == if r < k { r } else { k });
    let vcs = ChunkedStreamView {
        state: AsyncChunkedState::ChunkSize,
        pending: tail,
        bytes_decoded: v.bytes_decoded + d.len(),
        ..v
    };
    assert(p.take(n) =~= d.take(n));
    let st = if r - n == 0 { AsyncChunkedState::ChunkDataEnd } else { AsyncChunkedState::ChunkData { remaining: (r - n) as usize } };
    let v2 = ChunkedStreamView { state: st, pending: p.skip(n), bytes_decoded: v.bytes_decoded + n, ..v };
    assert(chunked_poll(v) == (v2, PollView::Chunk(d.take(n))));
    let rest_all = chunked_poll_all(v2);
    assert(chunked_poll_all(v) == (rest_all.0, seq![d.take(n)] + rest_all.1, rest_all.2));
    if r <= k {
        assert(d.take(n) =~= d);
        assert(p.skip(n) =~= crlf_bytes() + tail);
        assert(crlf_at(p.skip(n), 0));
        assert(p.skip(n).skip(2) =~= tail);
        assert(chunked_poll(v2) == chunked_poll(vcs));
        lemma_poll_all_same(v2, vcs);
        assert(chunk_pieces(d, k) == seq![d]);
    } else {
        let d2 = d.skip(k);
        assert(p.skip(n) =~= d2 + crlf_bytes() + tail);
        lemma_stream_data(v2, d2, tail);
        assert(v2.bytes_decoded + d2.len() == v.bytes_decoded + d.len());
        let vcs2 = ChunkedStreamView {
            state: AsyncChunkedState::ChunkSize,
            pending: tail,
            bytes_decoded: v2.bytes_decoded + d2.len(),
            ..v2
        };
        assert(vcs2 == vcs);
        assert(chunk_pieces(d, k) == seq![d.take(k)] + chunk_pieces(d2, k));
        assert(seq![d.take(k)] + (chunk_pieces(d2, k) + chunked_poll_all(vcs).1) =~= seq![d.take(k)] + chunk_pieces(
            d2,
            k,
        ) + chunked_poll_all(vcs).1);
    }
}

proof fn lemma_stream_frame(v: ChunkedStreamView, f: ChunkFrame, tail: Seq<u8>)
    requires
        v.state == AsyncChunkedState::ChunkSize,
        v.pending == frame_bytes(f) + tail,
        frame_wf(f),
        0 <= v.bytes_decoded,
        v.bytes_decoded + f.data.len() <= v.max_size,
        v.chunk_size > 0,
    ensures
        chunked_poll_all(v) == prepend_pieces(
            chunk_pieces(f.data, v.chunk_size),
            chunked_poll_all(
                ChunkedStreamView {
                    state: AsyncChunkedState::ChunkSize,
                    pending: tail,
                    bytes_decoded: v.bytes_decoded + f.data.len(),
                    ..v
                },
            ),
        ),
{
    let p = v.pending;
    let c = crlf_bytes();
    let after = f.data + c + tail;
    assert(p =~= f.line + c + after);
    lemma_front_line(p, f.line, after);
    let k = f.line.len() as int;
    let n = f.data.len();
    assert(size_line_value(p.take(k)) == Ok::<nat, ChunkLineError>(n));
    let vd = ChunkedStreamView { state: AsyncChunkedState::ChunkData { remaining: n as usize }, pending: after, ..v };
    assert(chunked_poll(v) == chunked_poll(vd));
    lemma_poll_all_same(v, vd);
    lemma_stream_data(vd, f.data, tail);
}

proof fn lemma_stream_frames(v: ChunkedStreamView, fs: Seq<ChunkFrame>, tail: Seq<u8>)
    requires
        v.state == AsyncChunkedState::ChunkSize,
        v.pending == frames_bytes(fs) + tail,
        forall|i: int| 0 <= i < fs.len() ==> frame_wf(#[trigger] fs[i]),
        0 <= v.bytes_decoded,
        v.bytes_decoded + frames_data(fs).len() <= v.max_size,
        v.chunk_size > 0,
    ensures
        chunked_poll_all(v) == prepend_pieces(
            frames_pieces(fs, v.chunk_size),
            chunked_poll_all(
                ChunkedStreamView {
                    state: AsyncChunkedState::ChunkSize,
                    pending: tail,
                    bytes_decoded: v.bytes_decoded + frames_data(fs).len(),
                    ..v
                },
            ),
        ),
    decreases fs.len(),
{
    let vt = ChunkedStreamView {
        state: AsyncChunkedState::ChunkSize,
        pending: tail,
        bytes_decoded: v.bytes_decoded + frames_data(fs).len(),
        ..v
    };
    if fs.len() == 0 {
        assert(v.pending =~= tail);
        assert(vt == v);
        assert(Seq::<Seq<u8>>::empty() + chunked_poll_all(v).1 =~= chunked_poll_all(v).1);
    } else {
        let f = fs[0];
        let rest = fs.drop_first();
        assert(frame_wf(fs[0]));
        assert forall|i: int| 0 <= i < rest.len() implies frame_wf(#[trigger] rest[i]) by {
            assert(rest[i] == fs[i + 1]);
        }
        let mid = frames_bytes(rest) + tail;
        assert(v.pending =~= frame_bytes(f) + mid);
        lemma_stream_frame(v, f, mid);
        let v1 = ChunkedStreamView {
            state: AsyncChunkedState::ChunkSize,
            pending: mid,
            bytes_decoded: v.bytes_decoded + f.data.len(),
            ..v
        };
        lemma_stream_frames(v1, rest, tail);
        let vt1 = ChunkedStreamView {
            state: AsyncChunkedState::ChunkSize,
            pending: tail,
            bytes_decoded: v1.bytes_decoded + frames_data(rest).len(),
            ..v1
        };
        assert(vt1 == vt);
        let a = chunk_pieces(f.data, v.chunk_size);
        let b = frames_pieces(rest, v.chunk_size);
        assert(a + (b + chunked_poll_all(vt).1) =~= a + b + chunked_poll_all(vt).1);
    }
}

proof fn lemma_stream_trailers(v: ChunkedStreamView, ts: Seq<Seq<u8>>, rest: Seq<u8>)
    requires
        v.state == AsyncChunkedState::Trailers,
        v.pending == trailer_bytes(ts) + rest,
        forall|j: int| 0 <= j < ts.len() ==> (#[trigger] ts[j]).len() > 0 && no_cr(ts[j]),
        ts.len() == 0 || trailer_bytes(ts).len() + rest.len() <= MAX_TRAILER_LINE,
    ensures
        chunked_poll(v) == (ChunkedStreamView { state: AsyncChunkedState::Complete, pending: rest, ..v }, PollView::End),
    decreases ts.len(),
{
    let p = v.pending;
    if ts.len() == 0 {
        assert(crlf_at(p, 0));
        assert(p.skip(2) =~= rest);
    } else {
        let t = ts[0];
        let tr = ts.drop_first();
        assert(t.len() > 0 && no_cr(t));
        assert forall|j: int| 0 <= j < tr.len() implies (#[trigger] tr[j]).len() > 0 && no_cr(tr[j]) by {
            assert(tr[j] == ts[j + 1]);
        }
        let after = trailer_bytes(tr) + rest;
        assert(p =~= t + crlf_bytes() + after);
        lemma_front_line(p, t, after);
        assert(p[0] == t[0]);
        assert(!crlf_at(p, 0));
        let v2 = ChunkedStreamView { pending: after, ..v };
        assert(chunked_poll(v) == chunked_poll(v2));
        lemma_stream_trailers(v2, tr, rest);
    }
}

/// A complete, well-formed chunked body through the stream: each poll
/// yields the next piece of at most `chunk_size` bytes of the chunks' data,
/// in order, and the last poll ends the body, which is then complete with
/// every data byte counted. Joined, the pieces are what decoding the same
/// bytes at once gives. The trailers and what follows them must fit in one
/// trailer line's limit, since the stream holds them while it looks for the
/// end of a trailer line.
pub proof fn lemma_stream_matches_decode(
    v: ChunkedStreamView,
    fs: Seq<ChunkFrame>,
    last: Seq<u8>,
    ts: Seq<Seq<u8>>,
    rest: Seq<u8>,
)
    requires
        chunked_wf(fs, last, ts),
        v.state == AsyncChunkedState::ChunkSize,
        v.bytes_decoded == 0,
        v.pending == chunked_bytes(fs, last, ts) + rest,
        frames_data(fs).len() <= v.max_size <= usize::MAX,
        v.chunk_size > 0,
        ts.len() == 0 || trailer_bytes(ts).len() + rest.len() <= MAX_TRAILER_LINE,
    ensures
        chunked_poll_all(v) == (
            ChunkedStreamView {
                state: AsyncChunkedState::Complete,
                pending: rest,
                bytes_decoded: frames_data(fs).len() as int,
                ..v
            },
            frames_pieces(fs, v.chunk_size),
            PollView::End,
        ),
        forall|i: int|
            0 <= i < frames_pieces(fs, v.chunk_size).len() ==> 0 < (#[trigger] frames_pieces(fs, v.chunk_size)[i]).len()
                <= v.chunk_size,
        chunked_decode(v.pending, v.max_size) == Ok::<(Seq<u8>, int, int), crate::body::BodyError>(
            (
                frames_pieces(fs, v.chunk_size).flatten(),
                chunked_bytes(fs, last, ts).len() as int,
                frames_data(fs).len() as int,
            ),
        ),
{
    let c = crlf_bytes();
    let tail = last + c + trailer_bytes(ts) + rest;
    assert(v.pending =~= frames_bytes(fs) + tail);
    lemma_stream_frames(v, fs, tail);
    let vt = ChunkedStreamView {
        state: AsyncChunkedState::ChunkSize,
        pending: tail,
        bytes_decoded: frames_data(fs).len() as int,
        ..v
    };
    let after = trailer_bytes(ts) + rest;
    assert(tail =~= last + c + after);
    lemma_front_line(tail, last, after);
    let vtr = ChunkedStreamView { state: AsyncChunkedState::Trailers, pending: after, ..vt };
    assert(chunked_poll(vt) == chunked_poll(vtr));
    lemma_stream_trailers(vtr, ts, rest);
    let fin = ChunkedStreamView { state: AsyncChunkedState::Complete, pending: rest, ..vtr };
    assert(chunked_poll_all(vt) == (fin, Seq::<Seq<u8>>::empty(), PollView::End));
    assert(frames_pieces(fs, v.chunk_size) + Seq::<Seq<u8>>::empty() =~= frames_pieces(fs, v.chunk_size));
    lemma_frames_pieces(fs, v.chunk_size);
    lemma_chunked_decode_wf(fs, last, ts, rest, v.max_size);
}


/// The running total of the chunk sizes, from `total`, before the first
/// chunk that takes it above `max`.
pub open spec fn fit_total(fs: Seq<ChunkFrame>, total: int, max: int) -> int
    decreases fs.len(),
{
    if fs.len() == 0 {
        total
    } else if total + fs[0].data.len() > max {
        total
    } else {
        fit_total(fs.drop_first(), total + fs[0].data.len(), max)
    }
}

proof fn lemma_stream_frames_over(v: ChunkedStreamView, fs: Seq<ChunkFrame>, tail: Seq<u8>)
    requires
        v.state == AsyncChunkedState::ChunkSize,
        v.pending == frames_bytes(fs) + tail,
        forall|i: int| 0 <= i < fs.len() ==> frame_wf(#[trigger] fs[i]),
        0 <= v.bytes_decoded <= v.max_size < usize::MAX,
        v.bytes_decoded + frames_data(fs).len() > v.max_size,
        v.chunk_size > 0,
    ensures
        chunked_poll_all(v).2 == PollView::Fail(
            StreamErrorView::TooLarge {
                received: fit_total(fs, v.bytes_decoded, v.max_size) as usize,
                max: v.max_size as usize,
            },
        ),
        chunked_poll_all(v).0.state == AsyncChunkedState::Error,
        chunked_poll_all(v).0.bytes_decoded == fit_total(fs, v.bytes_decoded, v.max_size),
    decreases fs.len(),
{
    let f = fs[0];
    let rest = fs.drop_first();
    assert(frame_wf(fs[0]));
    assert forall|i: int| 0 <= i < rest.len() implies frame_wf(#[trigger] rest[i]) by {
        assert(rest[i] == fs[i + 1]);
    }
    let mid = frames_bytes(rest) + tail;
    assert(v.pending =~= frame_bytes(f) + mid);
    let n = f.data.len();
    if v.bytes_decoded + n > v.max_size {
        let p = v.pending;
        let c = crlf_bytes();
        let after = f.data + c + mid;
        assert(p =~= f.line + c + after);
        lemma_front_line(p, f.line, after);
        assert(size_line_value(p.take(f.line.len() as int)) == Ok::<nat, ChunkLineError>(n));
    } else {
        lemma_stream_frame(v, f, mid);
        let v1 = ChunkedStreamView {
            state: AsyncChunkedState::ChunkSize,
            pending: mid,
            bytes_decoded: v.bytes_decoded + n,
            ..v
        };
        lemma_stream_frames_over(v1, rest, tail);
    }
}

/// A well-formed chunked body whose data outgrow the limit, through the
/// stream: the chunks that fit are yielded, then the poll at the size line
/// of the first chunk that does not fit fails with `TooLarge`, reporting the
/// bytes decoded before it; the stream is then in its error state, where
/// every poll ends it.
pub proof fn lemma_stream_too_large(v: ChunkedStreamView, fs: Seq<ChunkFrame>, last: Seq<u8>, ts: Seq<Seq<u8>>, rest: Seq<u8>)
    requires
        chunked_wf(fs, last, ts),
        v.state == AsyncChunkedState::ChunkSize,
        v.bytes_decoded == 0,
        v.pending == chunked_bytes(fs, last, ts) + rest,
        0 <= v.max_size < frames_data(fs).len(),
        v.max_size < usize::MAX,
        v.chunk_size > 0,
    ensures
        chunked_poll_all(v).2 == PollView::Fail(
            StreamErrorView::TooLarge { received: fit_total(fs, 0, v.max_size) as usize, max: v.max_size as usize },
        ),
        chunked_poll_all(v).0.bytes_decoded == fit_total(fs, 0, v.max_size),
        chunked_poll_all(v).1.flatten().len() == fit_total(fs, 0, v.max_size),
        chunked_poll(chunked_poll_all(v).0) == (chunked_poll_all(v).0, PollView::End),
{
    let tail = last + crlf_bytes() + trailer_bytes(ts) + rest;
    assert(v.pending =~= frames_bytes(fs) + tail);
    lemma_stream_frames_over(v, fs, tail);
    lemma_poll_all_counts(v);
}

} // verus!

//! HTTP/1.1 response serialization: fully buffered bodies get a
//! `content-length`, streamed bodies are sent with chunked transfer encoding.
use vstd::prelude::*;
use vstd::utf8::*;
use crate::output::http_inspector::reason_phrase;
use crate::body::{chunk_size_of, chunked_decode, chunked_run, chunked_step, ChunkStep, ChunkedState, MAX_SINGLE_CHUNK};
use crate::scan::{crlf_at, find_byte, find_crlf, lemma_find_byte_bounds, lemma_find_crlf_first};
use crate::text::{
    is_lower_hex_char, lemma_hex_byte, lemma_hex_lower_char, all_hex, chars_eq_ignore_case, chars_of, decimal, eq_ignore_case, hex_digit_value, hex_lower, hex_lower_char, hex_value, parse_hex_usize, push_decimal, push_hex, radix16_digits, trim, trim_end, trim_start,
};

verus! {

/// The body of a response.
#[derive(Debug)]
pub enum ResponseBody {
    /// No body.
    Empty,
    /// A fully buffered body.
    Bytes(Vec<u8>),
    /// A body that arrives as a stream of chunks, handed to the
    /// [`ChunkedEncoder`] one at a time.
    Stream,
}

/// A response to serialize: status code, headers in order, body.
#[derive(Debug)]
pub struct Response {
    pub status: u16,
    pub headers: Vec<(String, Vec<u8>)>,
    pub body: ResponseBody,
}

/// Headers as (name, value) pairs of characters and bytes.
pub open spec fn header_pairs(h: Seq<(String, Vec<u8>)>) -> Seq<(Seq<char>, Seq<u8>)> {
    h.map_values(|p: (String, Vec<u8>)| (p.0@, p.1@))
}

impl Response {
    /// An empty `200 OK` response.
    pub fn ok() -> (r: Self)
        ensures
            r.status == 200,
            r.headers@.len() == 0,
            r.body is Empty,
    {
        Response { status: 200, headers: Vec::new(), body: ResponseBody::Empty }
    }

    /// An empty response with the given status code.
    pub fn with_status(status: u16) -> (r: Self)
        ensures
            r.status == status,
            r.headers@.len() == 0,
            r.body is Empty,
    {
        Response { status, headers: Vec::new(), body: ResponseBody::Empty }
    }

    /// Appends a header.
    pub fn header(self, name: &str, value: Vec<u8>) -> (r: Self)
        ensures
            r.status == self.status,
            r.body == self.body,
            header_pairs(r.headers@) == header_pairs(self.headers@).push((name@, value@)),
    {
        let mut headers = self.headers;
        headers.push((String::from_str(name), value));
        proof {
            assert(header_pairs(headers@) =~= header_pairs(self.headers@).push((name@, value@)));
        }
        Response { status: self.status, headers, body: self.body }
    }

    /// Replaces the body.
    pub fn body(self, body: ResponseBody) -> (r: Self)
        ensures
            r.status == self.status,
            r.headers == self.headers,
            r.body == body,
    {
        Response { status: self.status, headers: self.headers, body }
    }

    /// Status code, headers and body.
    pub fn into_parts(self) -> (r: (u16, Vec<(String, Vec<u8>)>, ResponseBody))
        ensures
            r.0 == self.status,
            r.1 == self.headers,
            r.2 == self.body,
    {
        (self.status, self.headers, self.body)
    }
}

// ---------------------------------------------------------------------------
// The bytes on the wire
// ---------------------------------------------------------------------------

pub open spec fn crlf() -> Seq<u8> {
    seq![13u8, 10u8]
}

/// `HTTP/1.1 <code> <reason>` and its line end.
pub open spec fn status_line(status: u16) -> Seq<u8> {
    encode_utf8("HTTP/1.1 "@) + encode_utf8(decimal(status as nat)) + encode_utf8(" "@) + encode_utf8(
        reason_phrase(status),
    ) + crlf()
}

/// Headers that the writer sets itself, and so drops from the response.
pub open spec fn is_framing_header(name: Seq<char>) -> bool {
    eq_ignore_case(name, "content-length"@) || eq_ignore_case(name, "transfer-encoding"@)
}

/// One `name: value` header line.
pub open spec fn header_line(name: Seq<char>, value: Seq<u8>) -> Seq<u8> {
    encode_utf8(name) + seq![58u8, 32u8] + value + crlf()
}

/// The header lines of the headers the writer keeps, in order.
pub open spec fn header_block(hs: Seq<(Seq<char>, Seq<u8>)>) -> Seq<u8>
    decreases hs.len(),
{
    if hs.len() == 0 {
        Seq::empty()
    } else {
        let last = hs.last();
        header_block(hs.drop_last()) + if is_framing_header(last.0) {
            Seq::empty()
        } else {
            header_line(last.0, last.1)
        }
    }
}

/// A fully buffered response.
pub open spec fn full_bytes(status: u16, hs: Seq<(Seq<char>, Seq<u8>)>, body: Seq<u8>) -> Seq<u8> {
    status_line(status) + header_block(hs) + encode_utf8("content-length: "@) + encode_utf8(
        decimal(body.len()),
    ) + crlf() + crlf() + body
}

/// The head of a streamed response.
pub open spec fn stream_head(status: u16, hs: Seq<(Seq<char>, Seq<u8>)>) -> Seq<u8> {
    status_line(status) + header_block(hs) + encode_utf8("transfer-encoding: chunked"@) + crlf() + crlf()
}

/// One chunk in chunked transfer encoding: its size in hexadecimal, the
/// data, each followed by a line end.
pub open spec fn chunk_frame(chunk: Seq<u8>) -> Seq<u8> {
    encode_utf8(hex_lower(chunk.len())) + crlf() + chunk + crlf()
}

/// The last chunk, of size zero, and the empty trailer.
pub open spec fn last_chunk() -> Seq<u8> {
    seq![48u8, 13u8, 10u8, 13u8, 10u8]
}

fn push_crlf(out: &mut Vec<u8>)
    ensures
        final(out)@ == old(out)@ + crlf(),
{
    out.push(13u8);
    out.push(10u8);
    assert(final(out)@ =~= old(out)@ + crlf());
}

fn push_text(out: &mut Vec<u8>, s: &str)
    ensures
        final(out)@ == old(out)@ + encode_utf8(s@),
{
    out.extend_from_slice(s.as_bytes());
    assert(final(out)@ =~= old(out)@ + encode_utf8(s@));
}

fn push_bytes(out: &mut Vec<u8>, b: &[u8])
    ensures
        final(out)@ == old(out)@ + b@,
{
    out.extend_from_slice(b);
    assert(final(out)@ =~= old(out)@ + b@);
}

/// The canonical reason phrase of a status code ("Unknown" when it has none).
pub fn canonical_reason(status: u16) -> (s: &'static str)
    ensures
        s@ == reason_phrase(status),
{
    crate::output::http_inspector::ResponseInfo::new(status).default_reason()
}

fn is_framing(name: &str) -> (r: bool)
    ensures
        r == is_framing_header(name@),
{
    let cs = chars_of(name);
    chars_eq_ignore_case(cs.as_slice(), "content-length") || chars_eq_ignore_case(cs.as_slice(), "transfer-encoding")
}

// ---------------------------------------------------------------------------
// Chunked encoder
// ---------------------------------------------------------------------------

/// What the encoder does next.
#[derive(Debug)]
pub enum EncoderStep {
    /// Send these bytes.
    Emit(Vec<u8>),
    /// Poll the body stream and hand its result to
    /// [`ChunkedEncoder::on_body`].
    PollBody,
    /// The response is complete.
    Done,
}

/// Streaming chunked response encoder: the head first, then each nonempty
/// body chunk framed, then the last chunk.
#[derive(Debug)]
pub struct ChunkedEncoder {
    head: Option<Vec<u8>>,
    finished: bool,
}

pub struct ChunkedEncoderView {
    /// The head, until it is sent.
    pub head: Option<Seq<u8>>,
    /// The body stream has ended.
    pub finished: bool,
}

impl View for ChunkedEncoder {
    type V = ChunkedEncoderView;

    closed spec fn view(&self) -> ChunkedEncoderView {
        ChunkedEncoderView {
            head: match self.head {
                Some(h) => Some(h@),
                None => None,
            },
            finished: self.finished,
        }
    }
}

impl ChunkedEncoder {
    /// An encoder that sends `head` first.
    pub fn new(head: Vec<u8>) -> (e: Self)
        ensures
            e@.head == Some(head@),
            !e@.finished,
    {
        ChunkedEncoder { head: Some(head), finished: false }
    }

    /// Frames one chunk: its size in lowercase hexadecimal, CRLF, the data,
    /// CRLF.
    pub fn encode_chunk(chunk: &[u8]) -> (out: Vec<u8>)
        ensures
            out@ == chunk_frame(chunk@),
    {
        let mut size = String::new();
        push_hex(&mut size, chunk.len());
        let mut out: Vec<u8> = Vec::new();
        push_text(&mut out, size.as_str());
        push_crlf(&mut out);
        push_bytes(&mut out, chunk);
        push_crlf(&mut out);
        assert(size@ == hex_lower(chunk@.len()));
        out
    }

    /// The next step when the stream is polled: the head if it has not been
    /// sent, `Done` after the last chunk, otherwise a poll of the body.
    pub fn poll_next(&mut self) -> (step: EncoderStep)
        ensures
            match old(self)@.head {
                Some(h) => (step matches EncoderStep::Emit(b) && b@ == h) && final(self)@.head is None
                    && final(self)@.finished == old(self)@.finished,
                None => final(self)@ == old(self)@ && (if old(self)@.finished {
                    step is Done
                } else {
                    step is PollBody
                }),
            },
    {
        match self.head.take() {
            Some(h) => EncoderStep::Emit(h),
            None => {
                if self.finished {
                    EncoderStep::Done
                } else {
                    EncoderStep::PollBody
                }
            },
        }
    }

    /// What to do with what the body stream produced: an empty chunk asks
    /// for another poll, a chunk is framed, the end of the stream gives the
    /// last chunk and finishes the encoder.
    pub fn on_body(&mut self, item: Option<Vec<u8>>) -> (step: EncoderStep)
        ensures
            final(self)@.head == old(self)@.head,
            match item {
                Some(c) => final(self)@.finished == old(self)@.finished && (if c@.len() == 0 {
                    step is PollBody
                } else {
                    step matches EncoderStep::Emit(b) && b@ == chunk_frame(c@)
                }),
                None => final(self)@.finished && (step matches EncoderStep::Emit(b) && b@ == last_chunk()),
            },
    {
        match item {
            Some(chunk) => {
                if chunk.len() == 0 {
                    EncoderStep::PollBody
                } else {
                    EncoderStep::Emit(Self::encode_chunk(chunk.as_slice()))
                }
            },
            None => {
                self.finished = true;
                let last: Vec<u8> = vec![48u8, 13u8, 10u8, 13u8, 10u8];
                assert(last@ =~= last_chunk());
                EncoderStep::Emit(last)
            },
        }
    }
}

// ---------------------------------------------------------------------------
// Response writer
// ---------------------------------------------------------------------------

/// Serialized response output.
#[derive(Debug)]
pub enum ResponseWrite {
    /// Fully-buffered response bytes.
    Full(Vec<u8>),
    /// Chunked stream (head + body chunks).
    Stream(ChunkedEncoder),
}

/// Writes HTTP responses to a buffer.
#[derive(Debug)]
pub struct ResponseWriter {
    buffer: Vec<u8>,
}

impl ResponseWriter {
    /// Create a new response writer.
    pub fn new() -> (w: Self) {
        ResponseWriter { buffer: Vec::with_capacity(4096) }
    }

    /// Serializes a response: with `content-length` when its body is
    /// buffered (or empty), as a chunked stream when it streams. Headers named
    /// `content-length` or `transfer-encoding` (in any case) are dropped.
    pub fn write(&mut self, response: Response) -> (w: ResponseWrite)
        ensures
            match response.body {
                ResponseBody::Empty => w matches ResponseWrite::Full(b) && b@ == full_bytes(
                    response.status,
                    header_pairs(response.headers@),
                    Seq::empty(),
                ),
                ResponseBody::Bytes(body) => w matches ResponseWrite::Full(b) && b@ == full_bytes(
                    response.status,
                    header_pairs(response.headers@),
                    body@,
                ),
                ResponseBody::Stream => w matches ResponseWrite::Stream(e) && e@.head == Some(
                    stream_head(response.status, header_pairs(response.headers@)),
                ) && !e@.finished,
            },
    {
        let (status, headers, body) = response.into_parts();
        match body {
            ResponseBody::Empty => {
                let empty: Vec<u8> = Vec::new();
                let bytes = self.write_full(status, &headers, empty.as_slice());
                ResponseWrite::Full(bytes)
            },
            ResponseBody::Bytes(body) => {
                let bytes = self.write_full(status, &headers, body.as_slice());
                ResponseWrite::Full(bytes)
            },
            ResponseBody::Stream => {
                let head = self.write_stream_head(status, &headers);
                ResponseWrite::Stream(ChunkedEncoder::new(head))
            },
        }
    }

    fn write_status(&mut self, status: u16)
        ensures
            final(self).buffer@ == old(self).buffer@ + encode_utf8("HTTP/1.1 "@) + encode_utf8(
                decimal(status as nat),
            ) + encode_utf8(" "@) + encode_utf8(reason_phrase(status)),
    {
        push_text(&mut self.buffer, "HTTP/1.1 ");
        let mut code = String::new();
        push_decimal(&mut code, status as u64);
        assert(code@ == decimal(status as nat));
        push_text(&mut self.buffer, code.as_str());
        push_text(&mut self.buffer, " ");
        push_text(&mut self.buffer, canonical_reason(status));
    }

    fn write_headers(&mut self, headers: &Vec<(String, Vec<u8>)>)
        ensures
            final(self).buffer@ == old(self).buffer@ + header_block(header_pairs(headers@)),
    {
        let ghost start = self.buffer@;
        let mut i: usize = 0;
        while i < headers.len()
            invariant
                i <= headers@.len(),
                self.buffer@ == start + header_block(header_pairs(headers@.take(i as int))),
            decreases headers@.len() - i,
        {
            let ghost before = self.buffer@;
            let (name, value) = &headers[i];
            proof {
                assert(header_pairs(headers@.take(i + 1)).drop_last() =~= header_pairs(headers@.take(i as int)));
                assert(header_pairs(headers@.take(i + 1)).last() == (name@, value@));
            }
            if !is_framing(name.as_str()) {
                push_text(&mut self.buffer, name.as_str());
                self.buffer.push(58u8);
                self.buffer.push(32u8);
                push_bytes(&mut self.buffer, value.as_slice());
                push_crlf(&mut self.buffer);
                assert(self.buffer@ =~= before + header_line(name@, value@));
            } else {
                assert(self.buffer@ =~= before + Seq::<u8>::empty());
            }
            i += 1;
        }
        assert(headers@.take(headers@.len() as int) =~= headers@);
    }

    fn write_full(&mut self, status: u16, headers: &Vec<(String, Vec<u8>)>, body: &[u8]) -> (out: Vec<u8>)
        ensures
            out@ == full_bytes(status, header_pairs(headers@), body@),
    {
        self.buffer.clear();
        self.write_status(status);
        push_crlf(&mut self.buffer);
        self.write_headers(headers);
        push_text(&mut self.buffer, "content-length: ");
        let mut len = String::new();
        push_decimal(&mut len, body.len() as u64);
        assert(len@ == decimal(body@.len()));
        push_text(&mut self.buffer, len.as_str());
        push_crlf(&mut self.buffer);
        push_crlf(&mut self.buffer);
        push_bytes(&mut self.buffer, body);
        self.take_buffer()
    }

    fn write_stream_head(&mut self, status: u16, headers: &Vec<(String, Vec<u8>)>) -> (out: Vec<u8>)
        ensures
            out@ == stream_head(status, header_pairs(headers@)),
    {
        self.buffer.clear();
        self.write_status(status);
        push_crlf(&mut self.buffer);
        self.write_headers(headers);
        push_text(&mut self.buffer, "transfer-encoding: chunked");
        push_crlf(&mut self.buffer);
        push_crlf(&mut self.buffer);
        self.take_buffer()
    }

    fn take_buffer(&mut self) -> (out: Vec<u8>)
        ensures
            out@ == old(self).buffer@,
            final(self).buffer@.len() == 0,
    {
        let mut out: Vec<u8> = Vec::new();
        std::mem::swap(&mut out, &mut self.buffer);
        out
    }
}

// ---------------------------------------------------------------------------
// What the encoder writes, the chunked decoder reads back
// ---------------------------------------------------------------------------

/// The body bytes a [`ChunkedEncoder`] sends after the head when the body
/// stream yields `chunks` and then ends: each nonempty chunk framed, then the
/// last chunk.
pub open spec fn chunked_body(chunks: Seq<Seq<u8>>) -> Seq<u8>
    decreases chunks.len(),
{
    if chunks.len() == 0 {
        last_chunk()
    } else {
        (if chunks[0].len() == 0 {
            Seq::empty()
        } else {
            chunk_frame(chunks[0])
        }) + chunked_body(chunks.drop_first())
    }
}

proof fn lemma_hex_lower(n: nat)
    ensures
        hex_lower(n).len() >= 1,
        forall|i: int| 0 <= i < hex_lower(n).len() ==> is_lower_hex_char(#[trigger] hex_lower(n)[i]),
        hex_value(hex_lower(n)) == n,
    decreases n,
{
    let h = hex_lower(n);
    if n < 16 {
        lemma_hex_lower_char(n);
        assert(h.drop_last() =~= Seq::<char>::empty());
        assert(hex_value(Seq::<char>::empty()) == 0);
        assert(hex_value(h) == hex_value(h.drop_last()) * 16 + n);
    } else {
        lemma_hex_lower(n / 16);
        lemma_hex_lower_char(n % 16);
        assert(h.drop_last() =~= hex_lower(n / 16));
        assert(h.last() == hex_lower_char(n % 16));
        assert(hex_value(h) == (n / 16) * 16 + n % 16);
        assert((n / 16) * 16 + n % 16 == n) by (nonlinear_arith);
        assert forall|i: int| 0 <= i < h.len() implies is_lower_hex_char(#[trigger] h[i]) by {
            if i < h.len() - 1 {
                assert(h[i] == hex_lower(n / 16)[i]);
            }
        }
    }
}

/// The size line the encoder writes for a chunk of `n` bytes is read back as
/// `n`, and holds no CR.
proof fn lemma_size_line(n: nat)
    requires
        n <= MAX_SINGLE_CHUNK,
    ensures
        encode_utf8(hex_lower(n)).len() == hex_lower(n).len() >= 1,
        forall|j: int|
            0 <= j < encode_utf8(hex_lower(n)).len() ==> #[trigger] encode_utf8(hex_lower(n))[j] != 13u8,
        chunk_size_of(encode_utf8(hex_lower(n))) == Ok::<nat, crate::body::ChunkLineError>(n),
{
    let h = hex_lower(n);
    let line = encode_utf8(h);
    lemma_hex_lower(n);
    assert(is_ascii_chars(h)) by {
        assert forall|i: int| 0 <= i < h.len() implies '\0' <= #[trigger] h[i] <= '\u{7f}' by {
            lemma_hex_byte(h[i]);
        }
    }
    is_ascii_chars_encode_utf8(h);
    assert forall|j: int| 0 <= j < line.len() implies #[trigger] line[j] != 13u8 && line[j] != 59u8 by {
        lemma_hex_byte(h[j]);
        assert(h[j] as u8 == line[j]);
    }
    lemma_find_byte_bounds(line, 59u8, 0);
    assert(find_byte(line, 59u8, 0) is None);
    encode_utf8_valid_utf8(h);
    encode_utf8_decode_utf8(h);
    lemma_hex_byte(h[0]);
    lemma_hex_byte(h[h.len() - 1]);
    assert(trim_start(h) == h);
    assert(trim_end(h) == h);
    assert(trim(h) == h);
    assert(radix16_digits(h) == h);
    assert(all_hex(h)) by {
        assert forall|i: int| 0 <= i < h.len() implies (#[trigger] hex_digit_value(h[i])) is Some by {
            lemma_hex_byte(h[i]);
        }
    }
    assert(parse_hex_usize(h) == Some(n));
}

/// Decoding from the last chunk: nothing more, and every byte used.
proof fn lemma_run_last(buf: Seq<u8>, pos: int, total: int, max: int)
    requires
        0 <= pos,
        pos + 5 == buf.len(),
        buf.subrange(pos, buf.len() as int) == last_chunk(),
        0 <= total <= max <= usize::MAX,
    ensures
        chunked_run(buf, ChunkedState::ChunkSize, pos, total, max) == Ok::<(Seq<u8>, int, int), crate::body::BodyError>(
            (Seq::empty(), buf.len() as int, total),
        ),
{
    assert forall|j: int| 0 <= j < 5 implies buf[pos + j] == #[trigger] last_chunk()[j] by {
        assert(buf.subrange(pos, buf.len() as int)[j] == buf[pos + j]);
    }
    lemma_size_line(0);
    assert(hex_lower(0) == seq![hex_lower_char(0)]);
    assert(encode_utf8(hex_lower(0)) =~= seq![48u8]) by {
        is_ascii_chars_encode_utf8(hex_lower(0));
        assert(encode_utf8(hex_lower(0))[0] == ('0' as u8));
    }
    assert(buf[pos] == 48u8 && buf[pos + 1] == 13u8 && buf[pos + 2] == 10u8);
    lemma_find_crlf_first(buf, pos, pos + 1);
    assert(buf.subrange(pos, pos + 1) =~= seq![48u8]);
    assert(chunk_size_of(buf.subrange(pos, pos + 1)) == Ok::<nat, crate::body::ChunkLineError>(0));
    assert(chunked_step(buf, ChunkedState::ChunkSize, pos, total, max) == ChunkStep::Go {
        state: ChunkedState::Trailers, pos: pos + 3, total, data: Seq::empty() });
    assert(buf[pos + 3] == 13u8 && buf[pos + 4] == 10u8);
    assert(crlf_at(buf, pos + 3));
    assert(chunked_step(buf, ChunkedState::Trailers, pos + 3, total, max) == ChunkStep::Go {
        state: ChunkedState::Complete, pos: pos + 5, total, data: Seq::empty() });
    assert(chunked_run(buf, ChunkedState::Complete, pos + 5, total, max) == Ok::<(Seq<u8>, int, int), crate::body::BodyError>(
        (Seq::empty(), pos + 5, total)));
    assert(chunked_run(buf, ChunkedState::Trailers, pos + 3, total, max) == Ok::<(Seq<u8>, int, int), crate::body::BodyError>(
        (Seq::<u8>::empty() + Seq::empty(), pos + 5, total)));
    assert(Seq::<u8>::empty() + (Seq::<u8>::empty() + Seq::<u8>::empty()) =~= Seq::<u8>::empty());
}

/// Decoding one framed chunk gives its data, then whatever follows it.
#[verifier::rlimit(40)]
proof fn lemma_run_frame(buf: Seq<u8>, pos: int, c: Seq<u8>, total: int, max: int)
    requires
        0 <= pos,
        0 < c.len() <= MAX_SINGLE_CHUNK,
        pos + chunk_frame(c).len() <= buf.len(),
        buf.subrange(pos, pos + chunk_frame(c).len()) == chunk_frame(c),
        0 <= total,
        total + c.len() <= max <= usize::MAX,
    ensures
        chunked_run(buf, ChunkedState::ChunkSize, pos, total, max) == crate::body::prepend_output(
            c,
            chunked_run(buf, ChunkedState::ChunkSize, pos + chunk_frame(c).len(), total + c.len(), max),
        ),
{
    let n = c.len();
    let line = encode_utf8(hex_lower(n));
    let k = line.len() as int;
    let frame = chunk_frame(c);
    assert forall|j: int| 0 <= j < frame.len() implies buf[pos + j] == #[trigger] frame[j] by {
        assert(buf.subrange(pos, pos + frame.len())[j] == buf[pos + j]);
    }
    lemma_size_line(n);
    assert forall|j: int| pos <= j < pos + k implies buf[j] != 13u8 by {
        assert(buf[pos + (j - pos)] == frame[j - pos]);
        assert(frame[j - pos] == line[j - pos]);
    }
    assert(buf[pos + k] == 13u8 && buf[pos + k + 1] == 10u8) by {
        assert(buf[pos + k] == frame[k]);
        assert(buf[pos + k + 1] == frame[k + 1]);
    }
    lemma_find_crlf_first(buf, pos, pos + k);
    assert(buf.subrange(pos, pos + k) =~= line) by {
        assert forall|j: int| 0 <= j < k implies buf.subrange(pos, pos + k)[j] == line[j] by {
            assert(buf[pos + j] == frame[j]);
        }
    }
    let p1 = pos + k + 2;
    assert(chunked_step(buf, ChunkedState::ChunkSize, pos, total, max) == ChunkStep::Go {
        state: ChunkedState::ChunkData { remaining: n as usize }, pos: p1, total, data: Seq::empty() });
    assert(buf.subrange(p1, p1 + n) =~= c) by {
        assert forall|j: int| 0 <= j < n implies buf.subrange(p1, p1 + n)[j] == c[j] by {
            assert(buf[pos + k + 2 + j] == frame[k + 2 + j]);
        }
    }
    let p2 = p1 + n;
    assert(chunked_step(buf, ChunkedState::ChunkData { remaining: n as usize }, p1, total, max) == ChunkStep::Go {
        state: ChunkedState::ChunkDataEnd, pos: p2, total: total + n, data: c });
    assert(buf[p2] == 13u8 && buf[p2 + 1] == 10u8) by {
        assert(buf[pos + (k + 2 + n)] == frame[k + 2 + n]);
        assert(buf[pos + (k + 3 + n)] == frame[k + 3 + n]);
    }
    assert(crlf_at(buf, p2));
    let p3 = p2 + 2;
    assert(p3 == pos + frame.len());
    assert(chunked_step(buf, ChunkedState::ChunkDataEnd, p2, total + n, max) == ChunkStep::Go {
        state: ChunkedState::ChunkSize, pos: p3, total: total + n, data: Seq::empty() });
    let tail = chunked_run(buf, ChunkedState::ChunkSize, p3, total + n, max);
    assert(chunked_run(buf, ChunkedState::ChunkDataEnd, p2, total + n, max) == crate::body::prepend_output(
        Seq::empty(), tail));
    assert(chunked_run(buf, ChunkedState::ChunkData { remaining: n as usize }, p1, total, max)
        == crate::body::prepend_output(c, crate::body::prepend_output(Seq::empty(), tail)));
    match tail {
        Ok((rest, q, t)) => {
            assert(Seq::<u8>::empty() + (c + (Seq::<u8>::empty() + rest)) =~= c + rest);
        },
        Err(e) => {},
    }
}

#[verifier::rlimit(40)]
proof fn lemma_run_chunks(buf: Seq<u8>, pos: int, chunks: Seq<Seq<u8>>, total: int, max: int)
    requires
        0 <= pos,
        pos + chunked_body(chunks).len() == buf.len(),
        buf.subrange(pos, buf.len() as int) == chunked_body(chunks),
        forall|i: int| 0 <= i < chunks.len() ==> (#[trigger] chunks[i]).len() <= MAX_SINGLE_CHUNK,
        0 <= total,
        total + chunks.flatten().len() <= max <= usize::MAX,
    ensures
        chunked_run(buf, ChunkedState::ChunkSize, pos, total, max) == Ok::<(Seq<u8>, int, int), crate::body::BodyError>(
            (chunks.flatten(), buf.len() as int, total + chunks.flatten().len()),
        ),
    decreases chunks.len(),
{
    if chunks.len() == 0 {
        lemma_run_last(buf, pos, total, max);
    } else {
        let c = chunks[0];
        let rest = chunks.drop_first();
        let body = chunked_body(chunks);
        assert(chunks.flatten() == c + rest.flatten());
        assert forall|i: int| 0 <= i < rest.len() implies (#[trigger] rest[i]).len() <= MAX_SINGLE_CHUNK by {
            assert(rest[i] == chunks[i + 1]);
        }
        if c.len() == 0 {
            assert(body =~= chunked_body(rest));
            lemma_run_chunks(buf, pos, rest, total, max);
            assert(c + rest.flatten() =~= rest.flatten());
        } else {
            let frame = chunk_frame(c);
            assert(body == frame + chunked_body(rest));
            let sub = buf.subrange(pos, buf.len() as int);
            assert(buf.subrange(pos, pos + frame.len()) =~= frame) by {
                assert forall|j: int| 0 <= j < frame.len() implies buf.subrange(pos, pos + frame.len())[j] == frame[j] by {
                    assert(sub[j] == body[j]);
                }
            }
            assert(buf.subrange(pos + frame.len(), buf.len() as int) =~= chunked_body(rest)) by {
                assert forall|j: int| 0 <= j < chunked_body(rest).len() implies buf.subrange(
                    pos + frame.len(),
                    buf.len() as int,
                )[j] == chunked_body(rest)[j] by {
                    assert(sub[frame.len() + j] == body[frame.len() + j]);
                }
            }
            lemma_run_frame(buf, pos, c, total, max);
            lemma_run_chunks(buf, pos + frame.len(), rest, total + c.len(), max);
            assert(c + rest.flatten() == chunks.flatten());
        }
    }
}

/// What a [`ChunkedEncoder`] sends after the head, the chunked decoder reads
/// back: decoding the framed chunks and the last chunk gives the chunks
/// joined, uses up every byte, and counts every data byte, for chunks of at
/// most 16MB each and a size limit no smaller than their total.
pub proof fn lemma_chunked_roundtrip(chunks: Seq<Seq<u8>>, max: int)
    requires
        forall|i: int| 0 <= i < chunks.len() ==> (#[trigger] chunks[i]).len() <= MAX_SINGLE_CHUNK,
        chunks.flatten().len() <= max <= usize::MAX,
    ensures
        chunked_decode(chunked_body(chunks), max) == Ok::<(Seq<u8>, int, int), crate::body::BodyError>(
            (chunks.flatten(), chunked_body(chunks).len() as int, chunks.flatten().len() as int),
        ),
{
    let buf = chunked_body(chunks);
    assert(buf.subrange(0, buf.len() as int) =~= buf);
    lemma_run_chunks(buf, 0, chunks, 0, max);
}

impl Default for ResponseWriter {
    fn default() -> (w: Self) {
        Self::new()
    }
}

} // verus!

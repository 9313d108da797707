use fastapi_verified::body::{parse_body, BodyConfig, BodyLength};
use fastapi_verified::response::{
    canonical_reason, ChunkedEncoder, EncoderStep, Response, ResponseBody, ResponseWrite, ResponseWriter,
};

/// Runs an encoder over a body that yields `chunks` and then ends.
fn collect_stream(mut encoder: ChunkedEncoder, chunks: Vec<Vec<u8>>) -> Vec<u8> {
    let mut body = chunks.into_iter();
    let mut out = Vec::new();
    loop {
        let mut step = encoder.poll_next();
        while let EncoderStep::PollBody = step {
            step = encoder.on_body(body.next());
        }
        match step {
            EncoderStep::Emit(bytes) => out.extend_from_slice(&bytes),
            EncoderStep::Done => break,
            EncoderStep::PollBody => unreachable!(),
        }
    }
    out
}

#[test]
fn write_full_sets_content_length() {
    let response = Response::ok()
        .header("content-type", b"text/plain".to_vec())
        .body(ResponseBody::Bytes(b"hello".to_vec()));
    let mut writer = ResponseWriter::new();
    let bytes = match writer.write(response) {
        ResponseWrite::Full(bytes) => bytes,
        ResponseWrite::Stream(_) => panic!("expected full response"),
    };
    let text = String::from_utf8_lossy(&bytes);
    assert!(text.starts_with("HTTP/1.1 200 OK\r\n"));
    assert!(text.contains("content-length: 5\r\n"));
    assert!(text.contains("\r\n\r\nhello"));
}

#[test]
fn write_stream_uses_chunked_encoding() {
    let response = Response::ok()
        .header("content-type", b"text/plain".to_vec())
        .body(ResponseBody::Stream);
    let mut writer = ResponseWriter::new();
    let bytes = match writer.write(response) {
        ResponseWrite::Stream(stream) => collect_stream(stream, vec![b"hello".to_vec(), b"world".to_vec()]),
        ResponseWrite::Full(_) => panic!("expected stream response"),
    };

    let expected = b"HTTP/1.1 200 OK\r\ncontent-type: text/plain\r\ntransfer-encoding: chunked\r\n\r\n5\r\nhello\r\n5\r\nworld\r\n0\r\n\r\n";
    assert_eq!(bytes, expected);
}

#[test]
fn full_response_exact_bytes_drop_framing_headers() {
    let response = Response::with_status(404)
        .header("Content-Length", b"999".to_vec())
        .header("x-id", b"7".to_vec())
        .header("TRANSFER-ENCODING", b"gzip".to_vec());
    let mut writer = ResponseWriter::default();
    match writer.write(response) {
        ResponseWrite::Full(bytes) => {
            assert_eq!(bytes, b"HTTP/1.1 404 Not Found\r\nx-id: 7\r\ncontent-length: 0\r\n\r\n".to_vec());
        }
        ResponseWrite::Stream(_) => panic!("expected full response"),
    }
}

#[test]
fn writer_can_be_reused() {
    let mut writer = ResponseWriter::new();
    for _ in 0..2 {
        let r = Response::with_status(201).body(ResponseBody::Bytes(b"ok".to_vec()));
        match writer.write(r) {
            ResponseWrite::Full(bytes) => {
                assert_eq!(bytes, b"HTTP/1.1 201 Created\r\ncontent-length: 2\r\n\r\nok".to_vec());
            }
            ResponseWrite::Stream(_) => panic!("expected full response"),
        }
    }
}

#[test]
fn unknown_status_reason() {
    assert_eq!(canonical_reason(299), "Unknown");
    assert_eq!(canonical_reason(503), "Service Unavailable");
}

#[test]
fn encode_chunk_uses_lowercase_hex() {
    let chunk = vec![b'x'; 26];
    let framed = ChunkedEncoder::encode_chunk(&chunk);
    let mut expected = b"1a\r\n".to_vec();
    expected.extend_from_slice(&chunk);
    expected.extend_from_slice(b"\r\n");
    assert_eq!(framed, expected);
}

#[test]
fn empty_chunks_are_skipped_and_head_comes_first() {
    let mut enc = ChunkedEncoder::new(b"HEAD".to_vec());
    match enc.poll_next() {
        EncoderStep::Emit(b) => assert_eq!(b, b"HEAD".to_vec()),
        _ => panic!("expected the head"),
    }
    assert!(matches!(enc.poll_next(), EncoderStep::PollBody));
    assert!(matches!(enc.on_body(Some(Vec::new())), EncoderStep::PollBody));
    match enc.on_body(None) {
        EncoderStep::Emit(b) => assert_eq!(b, b"0\r\n\r\n".to_vec()),
        _ => panic!("expected the last chunk"),
    }
    assert!(matches!(enc.poll_next(), EncoderStep::Done));
}

#[test]
fn chunked_output_decodes_back() {
    let chunks = vec![b"hello ".to_vec(), Vec::new(), vec![7u8; 300], b"\r\n0\r\n".to_vec()];
    let encoder = ChunkedEncoder::new(Vec::new());
    let body = collect_stream(encoder, chunks.clone());
    let config = BodyConfig::new();
    let decoded = parse_body(&body, BodyLength::Chunked, &config).unwrap().unwrap();
    assert_eq!(decoded, chunks.concat());
}

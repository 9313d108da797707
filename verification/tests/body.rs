use fastapi_verified::body::{
    parse_body, parse_body_with_consumed, validate_content_length, BodyConfig, BodyError,
    BodyLength, ChunkedReader, ContentLengthReader, StreamingBodyConfig,
    DEFAULT_MAX_BODY_SIZE, DEFAULT_STREAMING_THRESHOLD,
};
use fastapi_verified::body_stream::{
    AsyncChunkedStream, AsyncContentLengthStream, ReadOutcome, RequestBodyStreamError, StreamPoll,
};

#[test]
fn body_config_defaults() {
    let config = BodyConfig::default();
    assert_eq!(config.max_size(), DEFAULT_MAX_BODY_SIZE);
    assert_eq!(config.initial_capacity(), 4096);
}

#[test]
fn body_config_custom() {
    let config = BodyConfig::new().with_max_size(2048).with_initial_capacity(1024);
    assert_eq!(config.max_size(), 2048);
    assert_eq!(config.initial_capacity(), 1024);
}

#[test]
fn content_length_basic() {
    let body = b"Hello, World!";
    let config = BodyConfig::default();
    let mut reader = ContentLengthReader::new(body, body.len(), &config).unwrap();
    assert_eq!(reader.length(), 13);
    assert_eq!(reader.remaining(), 13);
    assert!(!reader.is_complete());
    let result = reader.read_all().unwrap();
    assert_eq!(result, b"Hello, World!");
    assert!(reader.is_complete());
}

#[test]
fn content_length_zero() {
    let body = b"";
    let config = BodyConfig::default();
    let mut reader = ContentLengthReader::new(body, 0, &config).unwrap();
    assert_eq!(reader.length(), 0);
    assert!(reader.is_complete());
    let result = reader.read_all().unwrap();
    assert!(result.is_empty());
}

#[test]
fn content_length_too_large() {
    let body = b"small";
    let config = BodyConfig::new().with_max_size(3);
    let result = ContentLengthReader::new(body, 100, &config);
    assert!(matches!(result, Err(BodyError::TooLarge { size: 100, max: 3 })));
}

#[test]
fn content_length_incomplete() {
    let body = b"Hello";
    let config = BodyConfig::default();
    let mut reader = ContentLengthReader::new(body, 10, &config).unwrap();
    let result = reader.read_all();
    assert!(matches!(result, Err(BodyError::Incomplete { received: 5, expected: Some(10) })));
}

#[test]
fn content_length_borrowed() {
    let body = b"Hello, World!";
    let config = BodyConfig::default();
    let reader = ContentLengthReader::new(body, body.len(), &config).unwrap();
    let borrowed = reader.read_all_borrowed().unwrap();
    assert_eq!(borrowed, body);
    assert_eq!(borrowed.as_ptr(), body.as_ptr());
}

#[test]
fn content_length_incremental_read() {
    let body = b"Hello, World!";
    let config = BodyConfig::default();
    let mut reader = ContentLengthReader::new(body, body.len(), &config).unwrap();
    let mut buf = [0u8; 5];
    let n = reader.read(&mut buf).unwrap();
    assert_eq!(n, 5);
    assert_eq!(&buf[..n], b"Hello");
    assert_eq!(reader.remaining(), 8);
    let n = reader.read(&mut buf).unwrap();
    assert_eq!(n, 5);
    assert_eq!(&buf[..n], b", Wor");
    assert_eq!(reader.remaining(), 3);
    let n = reader.read(&mut buf).unwrap();
    assert_eq!(n, 3);
    assert_eq!(&buf[..n], b"ld!");
    assert!(reader.is_complete());
    let n = reader.read(&mut buf).unwrap();
    assert_eq!(n, 0);
}

#[test]
fn chunked_single_chunk() {
    let body = b"5\r\nHello\r\n0\r\n\r\n";
    let config = BodyConfig::default();
    let mut reader = ChunkedReader::new(body, &config);
    let result = reader.decode_all().unwrap();
    assert_eq!(result, b"Hello");
    assert!(reader.is_complete());
}

#[test]
fn chunked_multiple_chunks() {
    let body = b"5\r\nHello\r\n7\r\n, World\r\n1\r\n!\r\n0\r\n\r\n";
    let config = BodyConfig::default();
    let mut reader = ChunkedReader::new(body, &config);
    let result = reader.decode_all().unwrap();
    assert_eq!(result, b"Hello, World!");
    assert!(reader.is_complete());
}

#[test]
fn chunked_empty() {
    let body = b"0\r\n\r\n";
    let config = BodyConfig::default();
    let mut reader = ChunkedReader::new(body, &config);
    let result = reader.decode_all().unwrap();
    assert!(result.is_empty());
    assert!(reader.is_complete());
}

#[test]
fn chunked_with_extension() {
    let body = b"5;ext=value\r\nHello\r\n0\r\n\r\n";
    let config = BodyConfig::default();
    let mut reader = ChunkedReader::new(body, &config);
    let result = reader.decode_all().unwrap();
    assert_eq!(result, b"Hello");
}

#[test]
fn chunked_with_trailers() {
    let body = b"5\r\nHello\r\n0\r\nTrailer: value\r\n\r\n";
    let config = BodyConfig::default();
    let mut reader = ChunkedReader::new(body, &config);
    let result = reader.decode_all().unwrap();
    assert_eq!(result, b"Hello");
    assert!(reader.is_complete());
}

#[test]
fn chunked_hex_sizes() {
    let body = b"a\r\n0123456789\r\nF\r\n0123456789ABCDE\r\n0\r\n\r\n";
    let config = BodyConfig::default();
    let mut reader = ChunkedReader::new(body, &config);
    let result = reader.decode_all().unwrap();
    assert_eq!(result.len(), 10 + 15);
}

#[test]
fn chunked_too_large() {
    let body = b"10\r\n0123456789ABCDEF\r\n0\r\n\r\n";
    let config = BodyConfig::new().with_max_size(10);
    let mut reader = ChunkedReader::new(body, &config);
    let result = reader.decode_all();
    assert!(matches!(result, Err(BodyError::TooLarge { size: 16, max: 10 })));
}

#[test]
fn chunked_invalid_size() {
    let body = b"xyz\r\nHello\r\n0\r\n\r\n";
    let config = BodyConfig::default();
    let mut reader = ChunkedReader::new(body, &config);
    let result = reader.decode_all();
    assert!(matches!(result, Err(BodyError::InvalidChunkedEncoding { detail: _ })));
}

#[test]
fn chunked_missing_crlf() {
    let body = b"5\r\nHelloX0\r\n\r\n";
    let config = BodyConfig::default();
    let mut reader = ChunkedReader::new(body, &config);
    let result = reader.decode_all();
    assert!(matches!(
        result,
        Err(BodyError::InvalidChunkedEncoding { detail: "expected CRLF after chunk data" })
    ));
}

#[test]
fn chunked_incomplete() {
    let body = b"5\r\nHel";
    let config = BodyConfig::default();
    let mut reader = ChunkedReader::new(body, &config);
    let result = reader.decode_all();
    assert!(matches!(result, Err(BodyError::Incomplete { .. })));
}

#[test]
fn parse_body_none() {
    let config = BodyConfig::default();
    let result = parse_body(b"ignored", BodyLength::NoBody, &config).unwrap();
    assert!(result.is_none());
}

#[test]
fn parse_body_content_length() {
    let config = BodyConfig::default();
    let result = parse_body(b"Hello, World!", BodyLength::ContentLength(13), &config).unwrap();
    assert_eq!(result.unwrap(), b"Hello, World!");
}

#[test]
fn parse_body_content_length_zero() {
    let config = BodyConfig::default();
    let result = parse_body(b"", BodyLength::ContentLength(0), &config).unwrap();
    assert_eq!(result.unwrap(), b"");
}

#[test]
fn parse_body_chunked() {
    let config = BodyConfig::default();
    let result = parse_body(b"5\r\nHello\r\n0\r\n\r\n", BodyLength::Chunked, &config).unwrap();
    assert_eq!(result.unwrap(), b"Hello");
}

#[test]
fn parse_body_with_consumed_content_length() {
    let config = BodyConfig::default();
    let (body, consumed) =
        parse_body_with_consumed(b"Hello, World!", BodyLength::ContentLength(13), &config).unwrap();
    assert_eq!(body.unwrap(), b"Hello, World!");
    assert_eq!(consumed, 13);
}

#[test]
fn parse_body_with_consumed_chunked() {
    let config = BodyConfig::default();
    let (body, consumed) =
        parse_body_with_consumed(b"5\r\nHello\r\n0\r\n\r\n", BodyLength::Chunked, &config).unwrap();
    assert_eq!(body.unwrap(), b"Hello");
    assert_eq!(consumed, 15);
}

#[test]
fn validate_content_length_ok() {
    let config = BodyConfig::new().with_max_size(1000);
    assert!(validate_content_length(500, &config).is_ok());
    assert!(validate_content_length(1000, &config).is_ok());
}

#[test]
fn validate_content_length_too_large() {
    let config = BodyConfig::new().with_max_size(1000);
    let result = validate_content_length(1001, &config);
    assert!(matches!(result, Err(BodyError::TooLarge { size: 1001, max: 1000 })));
}

#[test]
fn body_error_display() {
    let err = BodyError::TooLarge { size: 2000, max: 1000 };
    assert_eq!(err.to_string(), "body too large: 2000 bytes exceeds limit of 1000");
    let err = BodyError::InvalidChunkedEncoding { detail: "bad format" };
    assert_eq!(err.to_string(), "invalid chunked encoding: bad format");
    let err = BodyError::Incomplete { received: 50, expected: Some(100) };
    assert_eq!(err.to_string(), "incomplete body: received 50 of 100 bytes");
    let err = BodyError::UnexpectedEof;
    assert_eq!(err.to_string(), "unexpected end of body");
}

#[test]
fn streaming_body_config_defaults() {
    let config = StreamingBodyConfig::default();
    assert_eq!(config.streaming_threshold, DEFAULT_STREAMING_THRESHOLD);
    assert_eq!(config.chunk_size, 8 * 1024);
    assert_eq!(config.max_size, DEFAULT_MAX_BODY_SIZE);
}

#[test]
fn streaming_body_config_custom() {
    let config = StreamingBodyConfig::new()
        .with_streaming_threshold(1024)
        .with_chunk_size(4096)
        .with_max_size(10_000);
    assert_eq!(config.streaming_threshold, 1024);
    assert_eq!(config.chunk_size, 4096);
    assert_eq!(config.max_size, 10_000);
}

#[test]
fn streaming_body_config_minimum_chunk_size() {
    let config = StreamingBodyConfig::new().with_chunk_size(0);
    assert_eq!(config.chunk_size, 1);
}

#[test]
fn streaming_body_config_should_stream() {
    let config = StreamingBodyConfig::new().with_streaming_threshold(1000);
    assert!(!config.should_stream(500));
    assert!(!config.should_stream(1000));
    assert!(config.should_stream(1001));
    assert!(config.should_stream(10000));
}

/// Drives a Content-Length stream against an in-memory "connection".
fn drive_content_length(stream: &mut AsyncContentLengthStream, source: &mut Vec<u8>) -> StreamPoll {
    match stream.poll_next() {
        StreamPoll::Read(n) => {
            let take = n.min(source.len());
            let data: Vec<u8> = source.drain(..take).collect();
            stream.on_read(ReadOutcome::Data(data))
        }
        other => other,
    }
}

#[test]
fn async_content_length_stream_from_buffer() {
    let config = StreamingBodyConfig::new().with_chunk_size(5);
    let mut stream = AsyncContentLengthStream::new(b"Hello, World!".to_vec(), 13, &config);
    assert_eq!(stream.expected_size(), 13);
    assert_eq!(stream.bytes_read(), 0);
    assert_eq!(stream.remaining(), 13);
    let mut source = Vec::new();
    match drive_content_length(&mut stream, &mut source) {
        StreamPoll::Chunk(c) => assert_eq!(c, b"Hello"),
        other => panic!("expected chunk, got {other:?}"),
    }
    assert_eq!(stream.bytes_read(), 5);
    match drive_content_length(&mut stream, &mut source) {
        StreamPoll::Chunk(c) => assert_eq!(c, b", Wor"),
        other => panic!("expected chunk, got {other:?}"),
    }
    match drive_content_length(&mut stream, &mut source) {
        StreamPoll::Chunk(c) => assert_eq!(c, b"ld!"),
        other => panic!("expected chunk, got {other:?}"),
    }
    assert!(matches!(drive_content_length(&mut stream, &mut source), StreamPoll::End));
    assert!(stream.is_complete());
}

#[test]
fn async_content_length_stream_enforces_max_size() {
    let config = StreamingBodyConfig::new().with_chunk_size(8).with_max_size(10);
    let mut stream = AsyncContentLengthStream::new(b"123456".to_vec(), 12, &config);
    let mut source = b"abcdef".to_vec();
    match drive_content_length(&mut stream, &mut source) {
        StreamPoll::Chunk(c) => assert_eq!(c, b"123456"),
        other => panic!("expected initial chunk, got {other:?}"),
    }
    match drive_content_length(&mut stream, &mut source) {
        StreamPoll::Chunk(c) => assert_eq!(c, b"abcd"),
        other => panic!("expected bounded reader chunk, got {other:?}"),
    }
    match drive_content_length(&mut stream, &mut source) {
        StreamPoll::Fail(RequestBodyStreamError::TooLarge { received, max }) => {
            assert_eq!(received, 11);
            assert_eq!(max, 10);
        }
        other => panic!("expected TooLarge error, got {other:?}"),
    }
}

#[test]
fn async_chunked_stream_simple() {
    let config = StreamingBodyConfig::new().with_chunk_size(1024);
    let mut stream = AsyncChunkedStream::new(b"5\r\nHello\r\n0\r\n\r\n".to_vec(), &config);
    match stream.poll_next() {
        StreamPoll::Chunk(c) => assert_eq!(c, b"Hello"),
        other => panic!("expected chunk, got {other:?}"),
    }
    assert!(matches!(stream.poll_next(), StreamPoll::End));
    assert!(stream.is_complete());
}

#[test]
fn async_chunked_stream_multiple_chunks() {
    let config = StreamingBodyConfig::new();
    let mut stream = AsyncChunkedStream::new(b"5\r\nHello\r\n8\r\n, World!\r\n0\r\n\r\n".to_vec(), &config);
    let mut collected = Vec::new();
    loop {
        match stream.poll_next() {
            StreamPoll::Chunk(c) => collected.extend_from_slice(&c),
            StreamPoll::End => break,
            other => panic!("unexpected: {other:?}"),
        }
    }
    assert_eq!(collected, b"Hello, World!");
}

#[test]
fn async_chunked_stream_reads_more_when_split() {
    let config = StreamingBodyConfig::new();
    let mut stream = AsyncChunkedStream::new(b"5\r\nHe".to_vec(), &config);
    let mut source = b"llo\r\n0\r\n\r\n".to_vec();
    let mut collected = Vec::new();
    let mut poll = stream.poll_next();
    loop {
        match poll {
            StreamPoll::Chunk(c) => {
                collected.extend_from_slice(&c);
                poll = stream.poll_next();
            }
            StreamPoll::Read(n) => {
                let take = n.min(source.len());
                let data: Vec<u8> = source.drain(..take).collect();
                poll = stream.on_read(ReadOutcome::Data(data));
            }
            StreamPoll::End => break,
            other => panic!("unexpected: {other:?}"),
        }
    }
    assert_eq!(collected, b"Hello");
    assert!(stream.is_complete());
}

#[test]
fn chunked_stream_rejects_bad_hex() {
    let config = StreamingBodyConfig::new();
    let mut stream = AsyncChunkedStream::new(b"zz\r\n".to_vec(), &config);
    match stream.poll_next() {
        StreamPoll::Fail(RequestBodyStreamError::Io(msg)) => assert_eq!(msg, "invalid hex chunk size"),
        other => panic!("unexpected: {other:?}"),
    }
    assert!(matches!(stream.poll_next(), StreamPoll::End));
}

#[test]
fn chunked_size_with_plus_sign_and_spaces() {
    let body = b" +3 ;x\r\nabc\r\n0\r\n\r\n";
    let config = BodyConfig::default();
    let mut reader = ChunkedReader::new(body, &config);
    assert_eq!(reader.decode_all().unwrap(), b"abc");
    assert_eq!(reader.bytes_consumed(), body.len());
    assert_eq!(reader.total_size(), 3);
}

#[test]
fn chunked_size_over_sixteen_megabytes() {
    let body = b"1000001\r\n";
    let config = BodyConfig::new().with_max_size(usize::MAX);
    let mut reader = ChunkedReader::new(body, &config);
    assert!(matches!(
        reader.decode_all(),
        Err(BodyError::InvalidChunkedEncoding { detail: "chunk size exceeds 16MB limit" })
    ));
}

#[test]
fn chunked_missing_size_line_end() {
    let body = b"5";
    let config = BodyConfig::default();
    let mut reader = ChunkedReader::new(body, &config);
    assert!(matches!(reader.decode_all(), Err(BodyError::Incomplete { received: 0, expected: None })));
}

#[test]
fn parse_body_conflicting() {
    let config = BodyConfig::default();
    assert!(matches!(
        parse_body(b"x", BodyLength::Conflicting, &config),
        Err(BodyError::InvalidChunkedEncoding { detail: "conflicting body length indicators" })
    ));
}

#[test]
fn body_error_display_incomplete_without_expected() {
    let err = BodyError::Incomplete { received: 7, expected: None };
    assert_eq!(err.to_string(), "incomplete body: received 7 bytes");
}

#[test]
fn chunked_stream_with_extension_and_trailers_matches_decode_all() {
    let body = b"4;name=v\r\nWiki\r\n7\r\npedia i\r\n0;last\r\nX-Trailer: 1\r\nX-Other: 2\r\n\r\n".to_vec();
    let decoded = ChunkedReader::new(&body, &BodyConfig::new()).decode_all().unwrap();
    assert_eq!(decoded, b"Wikipedia i");
    let config = StreamingBodyConfig::new().with_chunk_size(3);
    let mut stream = AsyncChunkedStream::new(body.clone(), &config);
    let mut collected = Vec::new();
    loop {
        match stream.poll_next() {
            StreamPoll::Chunk(c) => {
                assert!(!c.is_empty() && c.len() <= 3);
                collected.extend_from_slice(&c);
            }
            StreamPoll::End => break,
            other => panic!("unexpected: {other:?}"),
        }
    }
    assert_eq!(collected, decoded);
    assert!(stream.is_complete());
    assert_eq!(stream.bytes_decoded(), decoded.len());
}

#[test]
fn chunked_decode_reports_first_running_total_over_limit() {
    let body = b"3\r\nabc\r\n4\r\ndefg\r\n5\r\nhijkl\r\n0\r\n\r\n".to_vec();
    let config = BodyConfig::new().with_max_size(6);
    let result = ChunkedReader::new(&body, &config).decode_all();
    assert!(matches!(result, Err(BodyError::TooLarge { size: 7, max: 6 })));
}

#[test]
fn chunked_stream_fails_at_first_chunk_over_limit_then_ends() {
    let config = StreamingBodyConfig::new().with_max_size(5);
    let mut stream = AsyncChunkedStream::new(b"3\r\n".to_vec(), &config);
    let mut source = b"abc\r\n4\r\ndefg\r\n0\r\n\r\n".to_vec();
    let mut collected = Vec::new();
    let mut poll = stream.poll_next();
    let failure = loop {
        match poll {
            StreamPoll::Chunk(c) => {
                collected.extend_from_slice(&c);
                poll = stream.poll_next();
            }
            StreamPoll::Read(n) => {
                let take = n.min(source.len());
                let data: Vec<u8> = source.drain(..take).collect();
                poll = stream.on_read(ReadOutcome::Data(data));
            }
            StreamPoll::Fail(e) => break e,
            other => panic!("unexpected: {other:?}"),
        }
    };
    assert_eq!(collected, b"abc");
    assert_eq!(failure, RequestBodyStreamError::TooLarge { received: 3, max: 5 });
    assert!(matches!(stream.poll_next(), StreamPoll::End));
    assert!(matches!(stream.poll_next(), StreamPoll::End));
}

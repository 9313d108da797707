use fastapi_verified::digest::hex_lower;
use fastapi_verified::websocket::{
    base64_decode, base64_encode, decode_frame, encode_frame, sha1, text_frame, text_of_frame,
    websocket_accept_from_key, Frame, FrameDecode, OpCode, WebSocketError, WebSocketHandshakeError,
};

#[test]
fn accept_key_known_vector() {
    let key = "dGhlIHNhbXBsZSBub25jZQ==";
    let accept = websocket_accept_from_key(key).unwrap();
    assert_eq!(accept, "s3pPLMBiTxaQ9kYGzzhZRbK+xOo=");
}

#[test]
fn base64_roundtrip_small() {
    let data = b"hello world";
    let enc = base64_encode(data);
    let dec = base64_decode(&enc).unwrap();
    assert_eq!(dec, data);
}

#[test]
fn base64_vectors_and_roundtrip_lengths() {
    assert_eq!(base64_encode(b""), "");
    assert_eq!(base64_encode(b"f"), "Zg==");
    assert_eq!(base64_encode(b"fo"), "Zm8=");
    assert_eq!(base64_encode(b"foo"), "Zm9v");
    assert_eq!(base64_encode(b"foobar"), "Zm9vYmFy");
    assert_eq!(base64_encode(&[0xfb, 0xff]), "+/8=");
    for n in 0..40u8 {
        let data: Vec<u8> = (0..n).map(|i| i.wrapping_mul(37).wrapping_add(11)).collect();
        assert_eq!(base64_decode(&base64_encode(&data)).unwrap(), data);
    }
}

#[test]
fn base64_decode_rules() {
    assert_eq!(base64_decode("  Zm9v \n").unwrap(), b"foo");
    assert_eq!(base64_decode("Zm9"), None);
    assert_eq!(base64_decode("Zm!v"), None);
    assert_eq!(base64_decode("=m9v"), None);
    // A padding character in the middle of the text is taken as it comes.
    assert_eq!(base64_decode("Zg==Zg==").unwrap(), b"ff");
}

#[test]
fn sha1_known_vectors() {
    assert_eq!(hex_lower(&sha1(b"abc")), "a9993e364706816aba3e25717850c26c9cd0d89d");
    assert_eq!(hex_lower(&sha1(b"")), "da39a3ee5e6b4b0d3255bfef95601890afd80709");
    assert_eq!(
        hex_lower(&sha1(b"abcdbcdecdefdefgefghfghighijhijkijkljklmklmnlmnomnopnopq")),
        "84983e441c3bd26ebaae4aa1f95129e5e54670f1"
    );
}

#[test]
fn handshake_errors() {
    assert_eq!(
        websocket_accept_from_key("   ").unwrap_err(),
        WebSocketHandshakeError::MissingHeader("sec-websocket-key")
    );
    assert_eq!(websocket_accept_from_key("not base64!").unwrap_err(), WebSocketHandshakeError::InvalidKeyBase64);
    let err = websocket_accept_from_key("Zm9v").unwrap_err();
    assert_eq!(err, WebSocketHandshakeError::InvalidKeyLength { decoded_len: 3 });
    assert_eq!(err.to_string(), "invalid Sec-WebSocket-Key (decoded length 3, expected 16)");
    assert_eq!(
        WebSocketHandshakeError::MissingHeader("x").to_string(),
        "missing required websocket header: x"
    );
    // Surrounding whitespace is trimmed before hashing.
    assert_eq!(
        websocket_accept_from_key(" dGhlIHNhbXBsZSBub25jZQ== ").unwrap(),
        "s3pPLMBiTxaQ9kYGzzhZRbK+xOo="
    );
}

fn masked_frame(b0: u8, payload: &[u8], mask: [u8; 4]) -> Vec<u8> {
    let mut out = vec![b0];
    let len = payload.len();
    if len <= 125 {
        out.push(0x80 | len as u8);
    } else if len <= 0xffff {
        out.push(0x80 | 126);
        out.extend_from_slice(&(len as u16).to_be_bytes());
    } else {
        out.push(0x80 | 127);
        out.extend_from_slice(&(len as u64).to_be_bytes());
    }
    out.extend_from_slice(&mask);
    for (i, b) in payload.iter().enumerate() {
        out.push(b ^ mask[i & 3]);
    }
    out
}

#[test]
fn decode_masked_text_frame() {
    let bytes = masked_frame(0x81, b"Hello", [0x37, 0xfa, 0x21, 0x3d]);
    match decode_frame(&bytes) {
        FrameDecode::Frame(f, used) => {
            assert!(f.fin);
            assert_eq!(f.opcode, OpCode::Text);
            assert_eq!(f.payload, b"Hello");
            assert_eq!(used, bytes.len());
            assert_eq!(text_of_frame(&f).unwrap(), "Hello");
        }
        other => panic!("unexpected {other:?}"),
    }
    // RFC 6455 example of a masked "Hello".
    let rfc = [0x81, 0x85, 0x37, 0xfa, 0x21, 0x3d, 0x7f, 0x9f, 0x4d, 0x51, 0x58];
    assert_eq!(bytes, rfc);
}

#[test]
fn decode_needs_more_then_extended_lengths() {
    let bytes = masked_frame(0x82, &vec![7u8; 300], [1, 2, 3, 4]);
    assert!(matches!(decode_frame(&bytes[..1]), FrameDecode::NeedMore(1)));
    assert!(matches!(decode_frame(&bytes[..3]), FrameDecode::NeedMore(1)));
    assert!(matches!(decode_frame(&bytes[..6]), FrameDecode::NeedMore(2)));
    assert!(matches!(decode_frame(&bytes[..10]), FrameDecode::NeedMore(298)));
    match decode_frame(&bytes) {
        FrameDecode::Frame(f, used) => {
            assert_eq!(f.opcode, OpCode::Binary);
            assert_eq!(f.payload, vec![7u8; 300]);
            assert_eq!(used, 308);
        }
        other => panic!("unexpected {other:?}"),
    }
    let big = masked_frame(0x82, &vec![1u8; 70000], [9, 9, 9, 9]);
    match decode_frame(&big) {
        FrameDecode::Frame(f, used) => {
            assert_eq!(f.payload.len(), 70000);
            assert_eq!(used, 70000 + 14);
        }
        other => panic!("unexpected {other:?}"),
    }
}

#[test]
fn decode_protocol_errors() {
    let cases: Vec<(Vec<u8>, &str)> = vec![
        (vec![0x83, 0x80], "invalid opcode"),
        (vec![0x09, 0x80], "control frames must not be fragmented"),
        (vec![0x81, 0x05], "client->server frames must be masked"),
        (vec![0x89, 0xfe, 0x00, 0x7e, 0, 0, 0, 0], "control frame too large"),
        (vec![0x82, 0xff, 0x80, 0, 0, 0, 0, 0, 0, 0], "invalid 64-bit length"),
    ];
    for (bytes, msg) in cases {
        match decode_frame(&bytes) {
            FrameDecode::Invalid(m) => assert_eq!(m, msg),
            other => panic!("unexpected {other:?} for {msg}"),
        }
    }
}

#[test]
fn encode_server_frames() {
    let f = text_frame("hi");
    assert_eq!(encode_frame(&f), vec![0x81, 0x02, b'h', b'i']);
    let f = Frame { fin: false, opcode: OpCode::Binary, payload: vec![0u8; 200] };
    let out = encode_frame(&f);
    assert_eq!(&out[..4], &[0x02, 126, 0x00, 0xc8]);
    assert_eq!(out.len(), 204);
    let f = Frame { fin: true, opcode: OpCode::Pong, payload: vec![5u8; 70000] };
    let out = encode_frame(&f);
    assert_eq!(&out[..10], &[0x8a, 127, 0, 0, 0, 0, 0, 0x01, 0x11, 0x70]);
    assert_eq!(out.len(), 70010);
}

#[test]
fn text_of_frame_errors() {
    let f = Frame { fin: true, opcode: OpCode::Binary, payload: b"x".to_vec() };
    let err = text_of_frame(&f).unwrap_err();
    assert!(matches!(err, WebSocketError::Protocol("expected text frame")));
    assert_eq!(err.to_string(), "websocket protocol error: expected text frame");
    let f = Frame { fin: true, opcode: OpCode::Text, payload: vec![0xff, 0xfe] };
    let err = text_of_frame(&f).unwrap_err();
    assert!(matches!(err, WebSocketError::Utf8(_)));
    assert!(err.to_string().starts_with("invalid utf-8 in websocket text frame: "));
    assert_eq!(OpCode::from_u8(0xA), Some(OpCode::Pong));
    assert_eq!(OpCode::from_u8(0x3), None);
    assert!(OpCode::Close.is_control());
    assert!(!OpCode::Text.is_control());
}

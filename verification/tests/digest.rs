use fastapi_verified::digest::{
    hex_lower, md5, parse_kv_list, sha256, DigestAlgorithm, DigestAuth, DigestAuthErrorKind, DigestQop, KvError,
};
use fastapi_verified::method::Method;

fn mufasa(extra: &str) -> String {
    [
        "Digest username=\"Mufasa\",",
        " realm=\"testrealm@host.com\",",
        " nonce=\"dcd98b7102dd2f0e8b11d0f600bfb0c093\",",
        " uri=\"/dir/index.html\",",
        " qop=auth,",
        " nc=00000001,",
        " cnonce=\"0a4f113b\",",
        extra,
    ]
    .concat()
}

#[test]
fn rfc_2617_mufasa_vector_md5_auth() {
    let hdr = [
        "Digest username=\"Mufasa\",",
        " realm=\"testrealm@host.com\",",
        " nonce=\"dcd98b7102dd2f0e8b11d0f600bfb0c093\",",
        " uri=\"/dir/index.html\",",
        " qop=auth,",
        " nc=00000001,",
        " cnonce=\"0a4f113b\",",
        " response=\"6629fae49393a05397450978507c4ef1\",",
        " opaque=\"5ccc069c403ebaf9f0171e9517f40e41\"",
    ]
    .concat();

    let d = DigestAuth::parse(&hdr).expect("parse");
    assert_eq!(d.algorithm, DigestAlgorithm::Md5);
    assert_eq!(d.qop, Some(DigestQop::Auth));

    let ok = d
        .verify(Method::Get, "testrealm@host.com", "Circle Of Life")
        .expect("verify");
    assert!(ok);
}

#[test]
fn md5_known_vector_empty() {
    let d = md5(b"");
    assert_eq!(hex_lower(&d), "d41d8cd98f00b204e9800998ecf8427e");
}

#[test]
fn parse_uppercase_response_is_accepted_and_normalized() {
    let hdr = mufasa(" response=\"6629FAE49393A05397450978507C4EF1\"");
    let d = DigestAuth::parse(&hdr).expect("parse");
    assert_eq!(d.response, "6629fae49393a05397450978507c4ef1");
}

#[test]
fn verify_for_challenge_rejects_nonce_mismatch() {
    let hdr = mufasa(" response=\"6629fae49393a05397450978507c4ef1\"");
    let d = DigestAuth::parse(&hdr).expect("parse");
    let ok = d
        .verify_for_challenge(Method::Get, "testrealm@host.com", "different_nonce", "Circle Of Life")
        .expect("verify");
    assert!(!ok);
}

#[test]
fn parse_rejects_unterminated_quoted_value() {
    let hdr = "Digest username=\"Mufasa, nonce=\"abc\", uri=\"/\", response=\"0123456789abcdef0123456789abcdef\"";
    let err = DigestAuth::parse(hdr).expect_err("unterminated quoted values must be rejected");
    assert!(matches!(err.kind, DigestAuthErrorKind::InvalidFormat(_)));
}

#[test]
fn md5_and_sha256_known_vectors() {
    assert_eq!(hex_lower(&md5(b"abc")), "900150983cd24fb0d6963f7d28e17f72");
    assert_eq!(
        hex_lower(&md5(b"The quick brown fox jumps over the lazy dog")),
        "9e107d9d372bb6826bd81d3542a419d6"
    );
    assert_eq!(
        hex_lower(&sha256(b"")),
        "e3b0c44298fc1c149afbf4c8996fb92427ae41e4649b934ca495991b7852b855"
    );
    assert_eq!(
        hex_lower(&sha256(b"abc")),
        "ba7816bf8f01cfea414140de5dae2223b00361a396177a9cb410ff61f20015ad"
    );
    // Two blocks after padding.
    assert_eq!(
        hex_lower(&sha256(b"abcdbcdecdefdefgefghfghighijhijkijkljklmklmnlmnomnopnopq")),
        "248d6a61d20638b8e5c026930c3e6039a33ce45964ff2167f6ecedd419db06c1"
    );
}

#[test]
fn verify_for_challenge_accepts_matching_nonce_and_realm() {
    let hdr = mufasa(" response=\"6629fae49393a05397450978507c4ef1\"");
    let d = DigestAuth::parse(&hdr).expect("parse");
    let ok = d
        .verify_for_challenge(
            Method::Get,
            "testrealm@host.com",
            "dcd98b7102dd2f0e8b11d0f600bfb0c093",
            "Circle Of Life",
        )
        .expect("verify");
    assert!(ok);
    let wrong_realm = d
        .verify_for_challenge(Method::Get, "other", "dcd98b7102dd2f0e8b11d0f600bfb0c093", "Circle Of Life")
        .expect("verify");
    assert!(!wrong_realm);
    let wrong_password = d.verify(Method::Get, "testrealm@host.com", "wrong").expect("verify");
    assert!(!wrong_password);
}

#[test]
fn expected_response_without_qop_and_with_sha256() {
    let hdr = "Digest username=\"u\", nonce=\"n\", uri=\"/\", response=\"00000000000000000000000000000000\"";
    let d = DigestAuth::parse(hdr).expect("parse");
    // MD5(MD5("u:r:p") + ":n:" + MD5("GET:/"))
    let ha1 = hex_lower(&md5(b"u:r:p"));
    let ha2 = hex_lower(&md5(b"GET:/"));
    let expected = hex_lower(&md5(format!("{ha1}:n:{ha2}").as_bytes()));
    assert_eq!(d.compute_expected_response(Method::Get, "r", "p").unwrap(), expected);

    let hdr = format!(
        "Digest username=\"u\", nonce=\"n\", uri=\"/\", algorithm=SHA-256, response=\"{}\"",
        "0".repeat(64)
    );
    let d = DigestAuth::parse(&hdr).expect("parse");
    assert_eq!(d.algorithm, DigestAlgorithm::Sha256);
    let ha1 = hex_lower(&sha256(b"u:r:p"));
    let ha2 = hex_lower(&sha256(b"POST:/"));
    let expected = hex_lower(&sha256(format!("{ha1}:n:{ha2}").as_bytes()));
    assert_eq!(d.compute_expected_response(Method::Post, "r", "p").unwrap(), expected);
}

#[test]
fn sess_algorithm_rehashes_with_nonce_and_cnonce() {
    let hdr = "Digest username=\"u\", nonce=\"n\", uri=\"/\", algorithm=MD5-sess, cnonce=\"c\", response=\"00000000000000000000000000000000\"";
    let d = DigestAuth::parse(hdr).expect("parse");
    let ha1_0 = hex_lower(&md5(b"u:r:p"));
    let ha1 = hex_lower(&md5(format!("{ha1_0}:n:c").as_bytes()));
    let ha2 = hex_lower(&md5(b"GET:/"));
    let expected = hex_lower(&md5(format!("{ha1}:n:{ha2}").as_bytes()));
    assert_eq!(d.compute_expected_response(Method::Get, "r", "p").unwrap(), expected);

    let hdr = "Digest username=\"u\", nonce=\"n\", uri=\"/\", algorithm=MD5-sess, response=\"00000000000000000000000000000000\"";
    let d = DigestAuth::parse(hdr).expect("parse");
    let err = d.compute_expected_response(Method::Get, "r", "p").unwrap_err();
    assert_eq!(err.kind, DigestAuthErrorKind::MissingField("cnonce"));
}

#[test]
fn auth_int_is_refused_when_computing() {
    let hdr = "Digest username=\"u\", nonce=\"n\", uri=\"/\", qop=auth-int, nc=00000001, cnonce=\"c\", response=\"00000000000000000000000000000000\"";
    let d = DigestAuth::parse(hdr).expect("parse");
    assert_eq!(d.qop, Some(DigestQop::AuthInt));
    let err = d.compute_expected_response(Method::Get, "r", "p").unwrap_err();
    assert_eq!(err.kind, DigestAuthErrorKind::UnsupportedQop);
}

#[test]
fn parse_errors_in_order() {
    let zeros = "00000000000000000000000000000000";
    let cases: Vec<(String, DigestAuthErrorKind)> = vec![
        ("Basic abc".to_string(), DigestAuthErrorKind::InvalidScheme),
        ("Digest   ".to_string(), DigestAuthErrorKind::InvalidFormat("missing parameters")),
        ("Digest".to_string(), DigestAuthErrorKind::InvalidFormat("missing parameters")),
        ("Digest nonce=\"n\"".to_string(), DigestAuthErrorKind::MissingField("username")),
        ("Digest username=u".to_string(), DigestAuthErrorKind::MissingField("nonce")),
        ("Digest username=u, nonce=n".to_string(), DigestAuthErrorKind::MissingField("uri")),
        ("Digest username=u, nonce=n, uri=/".to_string(), DigestAuthErrorKind::MissingField("response")),
        (
            format!("Digest username=u, nonce=n, uri=/, response={zeros}, algorithm=sha1"),
            DigestAuthErrorKind::UnsupportedAlgorithm,
        ),
        ("Digest username=u, nonce=n, uri=/, response=abc".to_string(), DigestAuthErrorKind::InvalidResponseHex),
        (
            format!("Digest username=u, nonce=n, uri=/, response={}", "g".repeat(32)),
            DigestAuthErrorKind::InvalidResponseHex,
        ),
        (
            format!("Digest username=u, nonce=n, uri=/, response={zeros}, qop=other"),
            DigestAuthErrorKind::UnsupportedQop,
        ),
        (
            format!("Digest username=u, nonce=n, uri=/, response={zeros}, nc=12"),
            DigestAuthErrorKind::InvalidNc,
        ),
        (
            format!("Digest username=u, nonce=n, uri=/, response={zeros}, qop=auth"),
            DigestAuthErrorKind::MissingField("nc"),
        ),
        (
            format!("Digest username=u, nonce=n, uri=/, response={zeros}, qop=auth, nc=0000000A"),
            DigestAuthErrorKind::MissingField("cnonce"),
        ),
        ("Digest =x".to_string(), DigestAuthErrorKind::InvalidFormat("expected key")),
        ("Digest a b".to_string(), DigestAuthErrorKind::InvalidFormat("expected '='")),
        ("Digest a=  ".to_string(), DigestAuthErrorKind::InvalidFormat("expected value")),
        ("Digest a=\"x\\".to_string(), DigestAuthErrorKind::InvalidFormat("invalid escape")),
    ];
    for (hdr, kind) in cases {
        let err = DigestAuth::parse(&hdr).expect_err(&hdr);
        assert_eq!(err.kind, kind, "{hdr}");
    }
}

#[test]
fn kv_list_rules() {
    let ps = parse_kv_list("A=1, b = \"x\\\"y\" ,,  a=2").unwrap();
    assert_eq!(ps, vec![("a".to_string(), "2".to_string()), ("b".to_string(), "x\"y".to_string())]);
    assert_eq!(parse_kv_list("a=").unwrap_err(), KvError::ExpectedValue);
    assert_eq!(parse_kv_list("a= , b=1").unwrap(), vec![("a".to_string(), String::new()), ("b".to_string(), "1".to_string())]);
    assert!(parse_kv_list("  ,, ").unwrap().is_empty());
}

#[test]
fn nc_is_lowercased_and_fields_kept() {
    let hdr = mufasa(" response=\"6629fae49393a05397450978507c4ef1\", NC=0000000A, opaque=\"o\"");
    let d = DigestAuth::parse(&hdr).expect("parse");
    assert_eq!(d.nc.as_deref(), Some("0000000a"));
    assert_eq!(d.opaque.as_deref(), Some("o"));
    assert_eq!(d.realm.as_deref(), Some("testrealm@host.com"));
    assert_eq!(d.cnonce.as_deref(), Some("0a4f113b"));
    assert_eq!(d.uri, "/dir/index.html");
}

#[test]
fn algorithm_and_qop_names() {
    assert_eq!(DigestAlgorithm::parse("SHA-256-sess"), Some(DigestAlgorithm::Sha256Sess));
    assert_eq!(DigestAlgorithm::parse("md5"), Some(DigestAlgorithm::Md5));
    assert_eq!(DigestAlgorithm::parse("md4"), None);
    assert!(DigestAlgorithm::Md5Sess.is_sess());
    assert!(!DigestAlgorithm::Sha256.is_sess());
    assert_eq!(DigestQop::parse("AUTH-INT"), Some(DigestQop::AuthInt));
    assert_eq!(DigestQop::Auth.as_str(), "auth");
    assert_eq!(DigestQop::parse("x"), None);
}

#[test]
fn error_messages() {
    let err = DigestAuth::parse("Basic x").unwrap_err();
    assert_eq!(err.to_string(), "Authorization header must use Digest scheme");
    let err = DigestAuth::parse("Digest username=u").unwrap_err();
    assert_eq!(err.to_string(), "Digest header missing field: nonce");
    let err = DigestAuth::parse("Digest =").unwrap_err();
    assert_eq!(err.to_string(), "Invalid Digest header: expected key");
}

#[test]
fn from_request_missing_header_produces_401() {
    let err = DigestAuth::from_request(None).unwrap_err();
    assert_eq!(err.kind, DigestAuthErrorKind::MissingHeader);
    let response = err.into_response();
    assert_eq!(response.status, 401);
    match response.body {
        fastapi_verified::response::ResponseBody::Bytes(b) => {
            assert_eq!(b, br#"{"detail":"Not authenticated"}"#.to_vec());
        }
        _ => panic!("expected a JSON body"),
    }
    assert_eq!(response.headers[0].0, "www-authenticate");
    assert_eq!(response.headers[0].1, b"Digest realm=\"api\", qop=\"auth\", algorithm=MD5".to_vec());
    assert_eq!(response.headers[1].0, "content-type");
}

#[test]
fn from_request_invalid_utf8_and_invalid_credentials() {
    let err = DigestAuth::from_request(Some(&[0xff, 0xfe])).unwrap_err();
    assert_eq!(err.kind, DigestAuthErrorKind::InvalidUtf8);
    let response = err.into_response();
    match response.body {
        fastapi_verified::response::ResponseBody::Bytes(b) => {
            assert_eq!(b, br#"{"detail":"Invalid authentication credentials"}"#.to_vec());
        }
        _ => panic!("expected a JSON body"),
    }
    let err = DigestAuth::from_request(Some(b"Basic abc")).unwrap_err();
    assert_eq!(err.kind, DigestAuthErrorKind::InvalidScheme);
}

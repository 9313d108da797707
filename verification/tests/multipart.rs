use fastapi_verified::multipart::{
    parse_boundary, parse_content_disposition, MultipartConfig, MultipartError, MultipartForm,
    MultipartParser, MultipartStreamState, Part, MAX_BOUNDARY_LEN,
};

#[test]
fn test_parse_boundary() {
    let ct = "multipart/form-data; boundary=----WebKitFormBoundary7MA4YWxkTrZu0gW";
    let boundary = parse_boundary(ct).unwrap();
    assert_eq!(boundary, "----WebKitFormBoundary7MA4YWxkTrZu0gW");
}

#[test]
fn test_parse_boundary_quoted() {
    let ct = r#"multipart/form-data; boundary="simple-boundary""#;
    let boundary = parse_boundary(ct).unwrap();
    assert_eq!(boundary, "simple-boundary");
}

#[test]
fn test_parse_boundary_case_insensitive_param_name() {
    let ct = r#"multipart/form-data; Boundary="simple-boundary""#;
    let boundary = parse_boundary(ct).unwrap();
    assert_eq!(boundary, "simple-boundary");
}

#[test]
fn test_parse_boundary_missing() {
    let ct = "multipart/form-data";
    let result = parse_boundary(ct);
    assert!(matches!(result, Err(MultipartError::MissingBoundary)));
}

#[test]
fn test_parse_boundary_rejects_too_long_value() {
    let too_long = "a".repeat(MAX_BOUNDARY_LEN + 1);
    let ct = format!("multipart/form-data; boundary={too_long}");
    let result = parse_boundary(&ct);
    assert!(matches!(result, Err(MultipartError::InvalidBoundary)));
}

#[test]
fn test_parse_boundary_wrong_content_type() {
    let ct = "application/json";
    let result = parse_boundary(ct);
    assert!(matches!(result, Err(MultipartError::InvalidBoundary)));
}

#[test]
fn test_parse_content_disposition_case_insensitive_params() {
    let (name, filename) =
        parse_content_disposition("form-data; Name=\"field\"; FileName=\"upload.txt\"")
            .expect("content disposition should parse");
    assert_eq!(name, "field");
    assert_eq!(filename.as_deref(), Some("upload.txt"));
}

#[test]
fn test_parse_simple_form() {
    let boundary = "----boundary";
    let body = [
        "------boundary\r\n",
        "Content-Disposition: form-data; name=\"field1\"\r\n",
        "\r\n",
        "value1\r\n",
        "------boundary\r\n",
        "Content-Disposition: form-data; name=\"field2\"\r\n",
        "\r\n",
        "value2\r\n",
        "------boundary--\r\n"
    ].concat();
    let parser = MultipartParser::new(boundary, MultipartConfig::default());
    let parts = parser.parse(body.as_bytes()).unwrap();
    assert_eq!(parts.len(), 2);
    assert_eq!(parts[0].name, "field1");
    assert_eq!(parts[0].text(), Some("value1"));
    assert!(parts[0].is_field());
    assert_eq!(parts[1].name, "field2");
    assert_eq!(parts[1].text(), Some("value2"));
}

#[test]
fn test_parse_simple_form_with_mixed_case_disposition_params() {
    let boundary = "----boundary";
    let body = [
        "------boundary\r\n",
        "Content-Disposition: form-data; Name=\"field1\"\r\n",
        "\r\n",
        "value1\r\n",
        "------boundary\r\n",
        "Content-Disposition: form-data; Name=\"file\"; FileName=\"note.txt\"\r\n",
        "Content-Type: text/plain\r\n",
        "\r\n",
        "hello\r\n",
        "------boundary--\r\n"
    ].concat();
    let parser = MultipartParser::new(boundary, MultipartConfig::default());
    let parts = parser.parse(body.as_bytes()).unwrap();
    assert_eq!(parts.len(), 2);
    assert_eq!(parts[0].name, "field1");
    assert_eq!(parts[0].text(), Some("value1"));
    assert_eq!(parts[1].name, "file");
    assert_eq!(parts[1].filename.as_deref(), Some("note.txt"));
    assert_eq!(parts[1].text(), Some("hello"));
}

#[test]
fn test_parse_file_upload() {
    let boundary = "----boundary";
    let body = [
        "------boundary\r\n",
        "Content-Disposition: form-data; name=\"file\"; filename=\"test.txt\"\r\n",
        "Content-Type: text/plain\r\n",
        "\r\n",
        "Hello, World!\r\n",
        "------boundary--\r\n"
    ].concat();
    let parser = MultipartParser::new(boundary, MultipartConfig::default());
    let parts = parser.parse(body.as_bytes()).unwrap();
    assert_eq!(parts.len(), 1);
    assert_eq!(parts[0].name, "file");
    assert_eq!(parts[0].filename, Some("test.txt".to_string()));
    assert_eq!(parts[0].content_type, Some("text/plain".to_string()));
    assert_eq!(parts[0].text(), Some("Hello, World!"));
    assert!(parts[0].is_file());
}

#[test]
fn test_parse_mixed_form() {
    let boundary = "----boundary";
    let mut body = Vec::new();
    body.extend_from_slice(b"------boundary\r\n");
    body.extend_from_slice(b"Content-Disposition: form-data; name=\"description\"\r\n");
    body.extend_from_slice(b"\r\n");
    body.extend_from_slice(b"A test file\r\n");
    body.extend_from_slice(b"------boundary\r\n");
    body.extend_from_slice(b"Content-Disposition: form-data; name=\"file\"; filename=\"data.bin\"\r\n");
    body.extend_from_slice(b"Content-Type: application/octet-stream\r\n");
    body.extend_from_slice(b"\r\n");
    body.extend_from_slice(&[0x00, 0x01, 0x02, 0x03]);
    body.extend_from_slice(b"\r\n");
    body.extend_from_slice(b"------boundary--\r\n");
    let parser = MultipartParser::new(boundary, MultipartConfig::default());
    let parts = parser.parse(&body).unwrap();
    assert_eq!(parts.len(), 2);
    assert_eq!(parts[0].name, "description");
    assert!(parts[0].is_field());
    assert_eq!(parts[0].text(), Some("A test file"));
    assert_eq!(parts[1].name, "file");
    assert!(parts[1].is_file());
    assert_eq!(parts[1].data, vec![0x00, 0x01, 0x02, 0x03]);
}

#[test]
fn test_multipart_form_helpers() {
    let boundary = "----boundary";
    let body = [
        "------boundary\r\n",
        "Content-Disposition: form-data; name=\"name\"\r\n",
        "\r\n",
        "John\r\n",
        "------boundary\r\n",
        "Content-Disposition: form-data; name=\"avatar\"; filename=\"photo.jpg\"\r\n",
        "Content-Type: image/jpeg\r\n",
        "\r\n",
        "JPEG DATA\r\n",
        "------boundary--\r\n"
    ].concat();
    let parser = MultipartParser::new(boundary, MultipartConfig::default());
    let parts = parser.parse(body.as_bytes()).unwrap();
    let form = MultipartForm::from_parts(parts);
    assert_eq!(form.get_field("name"), Some("John"));
    assert!(form.has_field("avatar"));
    assert_eq!(form.files().len(), 1);
    let f = form.get_file("avatar").unwrap();
    assert_eq!(f.filename, "photo.jpg");
    assert_eq!(f.content_type, "image/jpeg");
}

#[test]
fn test_multipart_form_take_file_and_into_files_move_data() {
    let parts = vec![
        Part::new("note".to_string(), None, None, b"hi".to_vec(), Vec::new()),
        Part::new(
            "avatar".to_string(),
            Some("a.bin".to_string()),
            Some("application/octet-stream".to_string()),
            vec![1, 2, 3, 4],
            Vec::new(),
        ),
        Part::new(
            "avatar".to_string(),
            Some("b.bin".to_string()),
            Some("application/octet-stream".to_string()),
            vec![9; 32],
            Vec::new(),
        ),
    ];
    let mut form = MultipartForm::from_parts_with_spool_threshold(parts, 8);
    let first = form.take_file("avatar").expect("first avatar file");
    assert_eq!(first.filename, "a.bin");
    assert_eq!(form.get_field("note"), Some("hi"));
    assert_eq!(form.get_files("avatar").len(), 1);
    let files = form.into_files();
    assert_eq!(files.len(), 1);
    assert_eq!(files[0].filename, "b.bin");
    assert!(files[0].needs_spool(), "32 bytes exceed the threshold of 8");
}

#[test]
fn test_boundary_like_sequence_in_part_body_does_not_terminate_part() {
    let boundary = "----boundary";
    let body = [
        "------boundary\r\n",
        "Content-Disposition: form-data; name=\"file\"; filename=\"data.bin\"\r\n",
        "Content-Type: application/octet-stream\r\n",
        "\r\n",
        "line1\r\n",
        "------boundaryX\r\n",
        "line2\r\n",
        "------boundary--\r\n"
    ].concat();
    let parser = MultipartParser::new(boundary, MultipartConfig::default());
    let parts = parser.parse(body.as_bytes()).unwrap();
    assert_eq!(parts.len(), 1);
    assert_eq!(parts[0].name, "file");
    assert!(parts[0].is_file());
    assert_eq!(parts[0].data, b"line1\r\n------boundaryX\r\nline2".to_vec());
}

#[test]
fn test_incremental_parse_with_chunked_input() {
    let boundary = "----boundary";
    let body = [
        "------boundary\r\n",
        "Content-Disposition: form-data; name=\"field1\"\r\n",
        "\r\n",
        "value1\r\n",
        "------boundary\r\n",
        "Content-Disposition: form-data; name=\"file\"; filename=\"test.txt\"\r\n",
        "Content-Type: text/plain\r\n",
        "\r\n",
        "hello-stream\r\n",
        "------boundary--\r\n"
    ].concat();
    let body = body.as_bytes();
    let parser = MultipartParser::new(boundary, MultipartConfig::default());
    let mut state = MultipartStreamState::default();
    let mut buffer = Vec::new();
    let mut parts = Vec::new();
    for chunk in body.chunks(5) {
        buffer.extend_from_slice(chunk);
        let mut parsed = parser.parse_incremental(&mut buffer, &mut state, false).unwrap();
        parts.append(&mut parsed);
    }
    let mut parsed = parser.parse_incremental(&mut buffer, &mut state, true).unwrap();
    parts.append(&mut parsed);
    assert!(state.is_done());
    assert_eq!(parts.len(), 2);
    assert_eq!(parts[0].name, "field1");
    assert_eq!(parts[0].text(), Some("value1"));
    assert_eq!(parts[1].name, "file");
    assert_eq!(parts[1].filename.as_deref(), Some("test.txt"));
    assert_eq!(parts[1].data, b"hello-stream".to_vec());
    assert!(buffer.is_empty());
}

#[test]
fn test_too_many_fields() {
    let body = [
        "--b\r\nContent-Disposition: form-data; name=\"a\"\r\n\r\n1\r\n",
        "--b\r\nContent-Disposition: form-data; name=\"c\"\r\n\r\n2\r\n",
        "--b--\r\n"
    ].concat();
    let parser = MultipartParser::new("b", MultipartConfig::new().max_fields(1));
    assert!(matches!(
        parser.parse(body.as_bytes()),
        Err(MultipartError::TooManyFields { count: 2, max: 1 })
    ));
}

#[test]
fn test_file_too_large_and_traversal() {
    let body = "--b\r\nContent-Disposition: form-data; name=\"f\"; filename=\"x\"\r\n\r\n12345\r\n--b--\r\n";
    let parser = MultipartParser::new("b", MultipartConfig::new().max_file_size(4));
    assert!(matches!(
        parser.parse(body.as_bytes()),
        Err(MultipartError::FileTooLarge { size: 5, max: 4 })
    ));
    let result = parse_content_disposition("form-data; name=\"f\"; filename=\"../etc/passwd\"");
    assert!(matches!(result, Err(MultipartError::InvalidContentDisposition { .. })));
    assert!(matches!(
        parse_content_disposition("form-data; filename=\"x\""),
        Err(MultipartError::InvalidContentDisposition { detail: "missing name parameter" })
    ));
}

#[test]
fn test_error_messages_and_extension() {
    assert_eq!(
        MultipartError::TooManyFields { count: 3, max: 2 }.to_string(),
        "too many fields: 3 exceeds limit of 2"
    );
    assert_eq!(MultipartError::UnexpectedEof.to_string(), "unexpected end of multipart data");
    let part = Part::new("f".to_string(), Some("photo.tar.gz".to_string()), None, vec![1], Vec::new());
    let upload = fastapi_verified::multipart::UploadFile::from_part(part).unwrap();
    assert_eq!(upload.extension().as_deref(), Some("gz"));
    assert_eq!(upload.content_type, "application/octet-stream");
    let noext = Part::new("f".to_string(), Some("README".to_string()), None, vec![], Vec::new());
    let upload = fastapi_verified::multipart::UploadFile::from_part(noext).unwrap();
    assert_eq!(upload.extension(), None);
}

#[test]
fn exactly_max_fields_parts_parse() {
    let parser = MultipartParser::new("b", MultipartConfig::new().max_fields(1));
    let body = b"--b\r\nContent-Disposition: form-data; name=\"a\"\r\n\r\nx\r\n--b--\r\n";
    let parts = parser.parse(body).unwrap();
    assert_eq!(parts.len(), 1);
    assert_eq!(parts[0].data, b"x".to_vec());
    let none = MultipartParser::new("b", MultipartConfig::new().max_fields(0));
    assert_eq!(none.parse(b"--b--\r\n").unwrap().len(), 0);
}

#[test]
fn parse_would_panic_on_boundary_right_after_headers() {
    let parser = MultipartParser::new("b", MultipartConfig::new());
    let bad = b"--b\r\nContent-Disposition: form-data; name=\"a\"\r\n\r\n--b--\r\n";
    assert!(parser.parse_would_panic(bad));
    let good = b"--b\r\nContent-Disposition: form-data; name=\"a\"\r\n\r\nx\r\n--b--\r\n";
    assert!(!parser.parse_would_panic(good));
}

#[test]
fn incremental_parse_matches_whole_parse_for_every_chunk_size() {
    let body = [
        "--sep\r\n",
        "Content-Disposition: form-data; name=\"a\"\r\n",
        "\r\n",
        "first value\r\n",
        "--sep\r\n",
        "Content-Disposition: form-data; name=\"f\"; filename=\"x.bin\"\r\n",
        "Content-Type: application/octet-stream\r\n",
        "\r\n",
        "line one\r\n--se not a delimiter\r\nline two\r\n",
        "--sep--\r\n"
    ].concat();
    let body = body.as_bytes();
    let parser = MultipartParser::new("sep", MultipartConfig::default());
    let whole = parser.parse(body).unwrap();
    assert_eq!(whole.len(), 2);
    for size in 1..=body.len() {
        let mut state = MultipartStreamState::new();
        let mut buffer = Vec::new();
        let mut parts = Vec::new();
        for chunk in body.chunks(size) {
            buffer.extend_from_slice(chunk);
            let mut parsed = parser.parse_incremental(&mut buffer, &mut state, false).unwrap();
            parts.append(&mut parsed);
        }
        let mut parsed = parser.parse_incremental(&mut buffer, &mut state, true).unwrap();
        parts.append(&mut parsed);
        assert!(state.is_done());
        assert_eq!(parts.len(), whole.len());
        for (p, w) in parts.iter().zip(whole.iter()) {
            assert_eq!(p.name, w.name);
            assert_eq!(p.filename, w.filename);
            assert_eq!(p.content_type, w.content_type);
            assert_eq!(p.data, w.data);
        }
    }
}

#[test]
fn incremental_parse_keeps_only_a_delimiter_length_of_open_part_data() {
    let parser = MultipartParser::new("bnd", MultipartConfig::default());
    let mut state = MultipartStreamState::new();
    let mut buffer =
        b"--bnd\r\nContent-Disposition: form-data; name=\"f\"; filename=\"a\"\r\n\r\n".to_vec();
    let parsed = parser.parse_incremental(&mut buffer, &mut state, false).unwrap();
    assert!(parsed.is_empty());
    assert!(buffer.is_empty());
    buffer.extend_from_slice(&[b'z'; 100]);
    let parsed = parser.parse_incremental(&mut buffer, &mut state, false).unwrap();
    assert!(parsed.is_empty());
    assert_eq!(buffer.len(), "--bnd".len() + 4);
    buffer.extend_from_slice(b"\r\n--bnd--\r\n");
    let parts = parser.parse_incremental(&mut buffer, &mut state, true).unwrap();
    assert_eq!(parts.len(), 1);
    assert_eq!(parts[0].data, vec![b'z'; 100]);
    assert!(state.is_done());
}

use fastapi_verified::multipart::{resolve_seek, Part, SeekPosition, UploadError, UploadFile};

fn upload(data: &[u8]) -> UploadFile {
    let part = Part::new("f".to_string(), Some("a.txt".to_string()), None, data.to_vec(), Vec::new());
    UploadFile::from_part(part).unwrap()
}

#[test]
fn read_moves_the_cursor() {
    let mut f = upload(b"hello world");
    assert_eq!(f.read_memory(Some(5)).unwrap(), b"hello".to_vec());
    assert_eq!(f.cursor(), 5);
    assert_eq!(f.read_memory(None).unwrap(), b" world".to_vec());
    assert_eq!(f.cursor(), 11);
    assert!(f.read_memory(Some(3)).unwrap().is_empty());
    assert_eq!(f.cursor(), 11);
}

#[test]
fn read_with_huge_size_stops_at_end() {
    let mut f = upload(b"abc");
    assert_eq!(f.read_memory(Some(usize::MAX)).unwrap(), b"abc".to_vec());
}

#[test]
fn write_overwrites_and_extends() {
    let mut f = upload(b"hello");
    assert_eq!(f.seek(SeekPosition::Start(3)), Ok(3));
    assert_eq!(f.write_memory(b"LOWORLD"), Some(7));
    assert_eq!(f.memory_bytes().unwrap(), b"helLOWORLD");
    assert_eq!(f.cursor(), 10);
    assert_eq!(f.size(), 10);
}

#[test]
fn write_past_end_zero_fills() {
    let mut f = upload(b"ab");
    assert_eq!(f.seek(SeekPosition::End(2)), Ok(4));
    assert_eq!(f.write_memory(b"z"), Some(1));
    assert_eq!(f.memory_bytes().unwrap(), &[b'a', b'b', 0, 0, b'z']);
}

#[test]
fn empty_write_changes_nothing() {
    let mut f = upload(b"ab");
    assert_eq!(f.seek(SeekPosition::Start(9)), Ok(9));
    assert_eq!(f.write_memory(b""), Some(0));
    assert_eq!(f.memory_bytes().unwrap(), b"ab");
    assert_eq!(f.cursor(), 9);
}

#[test]
fn seek_errors() {
    assert_eq!(resolve_seek(5, 10, SeekPosition::Current(-6)), Err(UploadError::SeekBeforeStart));
    assert_eq!(resolve_seek(5, 10, SeekPosition::Current(-5)), Ok(0));
    assert_eq!(resolve_seek(0, u64::MAX, SeekPosition::End(1)), Err(UploadError::SeekOutOfRange));
    assert_eq!(resolve_seek(0, 10, SeekPosition::End(-3)), Ok(7));
    assert_eq!(UploadError::SeekBeforeStart.message(), "seek before start of file");
}

#[test]
fn closed_upload_refuses_seek() {
    let mut f = upload(b"abc");
    assert!(f.ensure_open().is_ok());
    f.mark_closed();
    assert!(f.is_closed());
    assert_eq!(f.ensure_open(), Err(UploadError::Closed));
    assert_eq!(f.seek(SeekPosition::Start(0)), Err(UploadError::Closed));
    assert_eq!(UploadError::Closed.message(), "upload file is closed");
}

#[test]
fn spooled_bookkeeping() {
    let part = Part::new("f".to_string(), Some("a.bin".to_string()), None, vec![1, 2, 3, 4], Vec::new())
        .spooled_to("/tmp/upload-x".to_string());
    let mut f = UploadFile::from_part(part).unwrap();
    assert!(f.read_memory(None).is_none());
    assert!(f.write_memory(b"x").is_none());
    assert_eq!(f.spooled_read_limit(None), 4);
    assert_eq!(f.spooled_read_limit(Some(2)), 2);
    f.note_spooled_read(3);
    assert_eq!(f.cursor(), 3);
    f.note_spooled_write(5);
    assert_eq!(f.cursor(), 8);
    assert_eq!(f.len_u64(), 8);
    assert_eq!(f.spooled_read_limit(None), 0);
}

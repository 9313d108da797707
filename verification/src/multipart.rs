//! `multipart/form-data` parsing with per-file, total and field-count limits.
//!
//! Parts are kept in memory here; moving large uploads to temporary files
//! is done by the caller, which records the file with [`Part::spooled_to`]
//! or [`UploadFile::mark_spooled`].
use vstd::prelude::*;
use vstd::utf8::*;
use crate::query::first_value;
use crate::scan::{copy_range, crlf_at, extend_from_range, find_crlf, find_crlf_from, lemma_find_crlf_bounds, lemma_find_crlf_shift_from};
use crate::text::{
    chars_eq_ignore_case, chars_of, decimal, eq_ignore_case, find_char, find_char_from,
    has_char, has_double_dot, has_substr, lemma_find_char_bounds, lower_all, lower_chars,
    push_decimal, push_str, slice_chars, split_char, split_chars, string_from_chars, trim,
    trimmed, utf8_str, vecs_view,
};

verus! {

/// Default maximum file size (10MB).
pub const DEFAULT_MAX_FILE_SIZE: usize = 10485760;

/// Default maximum total upload size (50MB).
pub const DEFAULT_MAX_TOTAL_SIZE: usize = 52428800;

/// Default maximum number of fields.
pub const DEFAULT_MAX_FIELDS: usize = 100;

/// Default size above which uploads go to a temporary file (1MB).
pub const DEFAULT_SPOOL_THRESHOLD: usize = 1048576;

/// Longest boundary accepted, in bytes (RFC 2046).
pub const MAX_BOUNDARY_LEN: usize = 70;

/// Configuration for multipart parsing.
#[derive(Debug, Clone, Copy, PartialEq, Eq, Structural)]
pub struct MultipartConfig {
    max_file_size: usize,
    max_total_size: usize,
    max_fields: usize,
    spool_threshold: usize,
}

/// The limits of a [`MultipartConfig`].
pub struct MultipartConfigView {
    pub max_file_size: usize,
    pub max_total_size: usize,
    pub max_fields: usize,
    pub spool_threshold: usize,
}

impl View for MultipartConfig {
    type V = MultipartConfigView;

    closed spec fn view(&self) -> MultipartConfigView {
        MultipartConfigView {
            max_file_size: self.max_file_size,
            max_total_size: self.max_total_size,
            max_fields: self.max_fields,
            spool_threshold: self.spool_threshold,
        }
    }
}

impl Default for MultipartConfig {
    fn default() -> (c: Self)
        ensures
            c@ == (MultipartConfigView {
                max_file_size: DEFAULT_MAX_FILE_SIZE,
                max_total_size: DEFAULT_MAX_TOTAL_SIZE,
                max_fields: DEFAULT_MAX_FIELDS,
                spool_threshold: DEFAULT_SPOOL_THRESHOLD,
            }),
    {
        MultipartConfig {
            max_file_size: DEFAULT_MAX_FILE_SIZE,
            max_total_size: DEFAULT_MAX_TOTAL_SIZE,
            max_fields: DEFAULT_MAX_FIELDS,
            spool_threshold: DEFAULT_SPOOL_THRESHOLD,
        }
    }
}

impl MultipartConfig {
    /// A configuration with the default limits.
    pub fn new() -> (c: Self)
        ensures
            c@ == (MultipartConfigView {
                max_file_size: DEFAULT_MAX_FILE_SIZE,
                max_total_size: DEFAULT_MAX_TOTAL_SIZE,
                max_fields: DEFAULT_MAX_FIELDS,
                spool_threshold: DEFAULT_SPOOL_THRESHOLD,
            }),
    {
        Self::default()
    }

    /// Sets the maximum file size.
    pub fn max_file_size(self, size: usize) -> (c: Self)
        ensures
            c@ == (MultipartConfigView { max_file_size: size, ..self@ }),
    {
        MultipartConfig { max_file_size: size, ..self }
    }

    /// Sets the maximum total upload size.
    pub fn max_total_size(self, size: usize) -> (c: Self)
        ensures
            c@ == (MultipartConfigView { max_total_size: size, ..self@ }),
    {
        MultipartConfig { max_total_size: size, ..self }
    }

    /// Sets the maximum number of fields.
    pub fn max_fields(self, count: usize) -> (c: Self)
        ensures
            c@ == (MultipartConfigView { max_fields: count, ..self@ }),
    {
        MultipartConfig { max_fields: count, ..self }
    }

    /// Sets the size above which files go to a temporary file.
    pub fn spool_threshold(self, size: usize) -> (c: Self)
        ensures
            c@ == (MultipartConfigView { spool_threshold: size, ..self@ }),
    {
        MultipartConfig { spool_threshold: size, ..self }
    }

    /// The maximum file size.
    pub fn get_max_file_size(&self) -> (r: usize)
        ensures
            r == self@.max_file_size,
    {
        self.max_file_size
    }

    /// The maximum total upload size.
    pub fn get_max_total_size(&self) -> (r: usize)
        ensures
            r == self@.max_total_size,
    {
        self.max_total_size
    }

    /// The maximum number of fields.
    pub fn get_max_fields(&self) -> (r: usize)
        ensures
            r == self@.max_fields,
    {
        self.max_fields
    }

    /// The spool threshold.
    pub fn get_spool_threshold(&self) -> (r: usize)
        ensures
            r == self@.spool_threshold,
    {
        self.spool_threshold
    }
}

/// Errors of multipart parsing.
#[derive(Debug, Clone, PartialEq, Eq)]
pub enum MultipartError {
    /// No boundary in the Content-Type.
    MissingBoundary,
    /// The Content-Type or its boundary is not acceptable.
    InvalidBoundary,
    /// A file exceeds the per-file limit.
    FileTooLarge { size: usize, max: usize },
    /// The upload exceeds the total limit.
    TotalTooLarge { size: usize, max: usize },
    /// There are too many fields.
    TooManyFields { count: usize, max: usize },
    /// A part has no Content-Disposition header.
    MissingContentDisposition,
    /// A part's Content-Disposition is not acceptable.
    InvalidContentDisposition { detail: &'static str },
    /// A part's headers are malformed.
    InvalidPartHeaders { detail: &'static str },
    /// The input ended early.
    UnexpectedEof,
    /// The multipart framing is malformed.
    InvalidFormat { detail: &'static str },
    /// Storing a part failed.
    Io { detail: String },
}

/// The message of a multipart error.
pub open spec fn multipart_error_message(e: MultipartError) -> Seq<char> {
    match e {
        MultipartError::MissingBoundary => "missing boundary in multipart Content-Type"@,
        MultipartError::InvalidBoundary => "invalid multipart boundary"@,
        MultipartError::FileTooLarge { size, max } => "file too large: "@ + decimal(size as nat)
            + " bytes exceeds limit of "@ + decimal(max as nat),
        MultipartError::TotalTooLarge { size, max } => "total upload too large: "@ + decimal(
            size as nat,
        ) + " bytes exceeds limit of "@ + decimal(max as nat),
        MultipartError::TooManyFields { count, max } => "too many fields: "@ + decimal(count as nat)
            + " exceeds limit of "@ + decimal(max as nat),
        MultipartError::MissingContentDisposition => "missing Content-Disposition header in part"@,
        MultipartError::InvalidContentDisposition { detail } => "invalid Content-Disposition: "@
            + detail@,
        MultipartError::InvalidPartHeaders { detail } => "invalid part headers: "@ + detail@,
        MultipartError::UnexpectedEof => "unexpected end of multipart data"@,
        MultipartError::InvalidFormat { detail } => "invalid multipart format: "@ + detail@,
        MultipartError::Io { detail } => "multipart I/O error: "@ + detail@,
    }
}

impl MultipartError {
    /// The human-readable message of this error.
    pub fn to_string(&self) -> (s: String)
        ensures
            s@ == multipart_error_message(*self),
    {
        let mut s = String::new();
        match self {
            MultipartError::MissingBoundary => push_str(&mut s, "missing boundary in multipart Content-Type"),
            MultipartError::InvalidBoundary => push_str(&mut s, "invalid multipart boundary"),
            MultipartError::FileTooLarge { size, max } => {
                push_str(&mut s, "file too large: ");
                push_decimal(&mut s, *size as u64);
                push_str(&mut s, " bytes exceeds limit of ");
                push_decimal(&mut s, *max as u64);
            },
            MultipartError::TotalTooLarge { size, max } => {
                push_str(&mut s, "total upload too large: ");
                push_decimal(&mut s, *size as u64);
                push_str(&mut s, " bytes exceeds limit of ");
                push_decimal(&mut s, *max as u64);
            },
            MultipartError::TooManyFields { count, max } => {
                push_str(&mut s, "too many fields: ");
                push_decimal(&mut s, *count as u64);
                push_str(&mut s, " exceeds limit of ");
                push_decimal(&mut s, *max as u64);
            },
            MultipartError::MissingContentDisposition => push_str(&mut s, "missing Content-Disposition header in part"),
            MultipartError::InvalidContentDisposition { detail } => {
                push_str(&mut s, "invalid Content-Disposition: ");
                push_str(&mut s, detail);
            },
            MultipartError::InvalidPartHeaders { detail } => {
                push_str(&mut s, "invalid part headers: ");
                push_str(&mut s, detail);
            },
            MultipartError::UnexpectedEof => push_str(&mut s, "unexpected end of multipart data"),
            MultipartError::InvalidFormat { detail } => {
                push_str(&mut s, "invalid multipart format: ");
                push_str(&mut s, detail);
            },
            MultipartError::Io { detail } => {
                push_str(&mut s, "multipart I/O error: ");
                push_str(&mut s, detail.as_str());
            },
        }
        s
    }
}

// ============================================================================
// Parts
// ============================================================================

pub open spec fn opt_string_view(o: Option<String>) -> Option<Seq<char>> {
    match o {
        Some(s) => Some(s@),
        None => None,
    }
}

pub open spec fn headers_view(h: Seq<(String, String)>) -> Seq<(Seq<char>, Seq<char>)> {
    h.map_values(|p: (String, String)| (p.0@, p.1@))
}

/// A parsed part of a multipart form.
#[derive(Debug, Clone)]
pub struct Part {
    /// Field name from Content-Disposition.
    pub name: String,
    /// Filename from Content-Disposition, if any.
    pub filename: Option<String>,
    /// Content-Type of the part, if any.
    pub content_type: Option<String>,
    /// The part's content (empty once moved to a temporary file).
    pub data: Vec<u8>,
    /// The part's headers, lower-cased names, one entry per name.
    pub headers: Vec<(String, String)>,
    spooled_path: Option<String>,
    spooled_len: Option<usize>,
}

/// The mathematical form of a [`Part`].
pub struct PartView {
    pub name: Seq<char>,
    pub filename: Option<Seq<char>>,
    pub content_type: Option<Seq<char>>,
    pub data: Seq<u8>,
    pub headers: Seq<(Seq<char>, Seq<char>)>,
    pub spooled_path: Option<Seq<char>>,
    pub spooled_len: Option<usize>,
}

impl View for Part {
    type V = PartView;

    closed spec fn view(&self) -> PartView {
        PartView {
            name: self.name@,
            filename: opt_string_view(self.filename),
            content_type: opt_string_view(self.content_type),
            data: self.data@,
            headers: headers_view(self.headers@),
            spooled_path: opt_string_view(self.spooled_path),
            spooled_len: self.spooled_len,
        }
    }
}

impl Part {
    /// A part held in memory.
    pub fn new(
        name: String,
        filename: Option<String>,
        content_type: Option<String>,
        data: Vec<u8>,
        headers: Vec<(String, String)>,
    ) -> (p: Self)
        ensures
            p@ == (PartView {
                name: name@,
                filename: opt_string_view(filename),
                content_type: opt_string_view(content_type),
                data: data@,
                headers: headers_view(headers@),
                spooled_path: None,
                spooled_len: None,
            }),
    {
        Part { name, filename, content_type, data, headers, spooled_path: None, spooled_len: None }
    }

    /// This part is now stored in the file at `path`; its data leaves memory.
    pub fn spooled_to(self, path: String) -> (p: Self)
        ensures
            p@ == (PartView {
                data: Seq::empty(),
                spooled_path: Some(path@),
                spooled_len: Some(self@.data.len() as usize),
                ..self@
            }),
    {
        let len = self.data.len();
        Part {
            name: self.name,
            filename: self.filename,
            content_type: self.content_type,
            data: Vec::new(),
            headers: self.headers,
            spooled_path: Some(path),
            spooled_len: Some(len),
        }
    }

    /// The part is a file upload.
    pub fn is_file(&self) -> (r: bool)
        ensures
            r == self@.filename is Some,
    {
        self.filename.is_some()
    }

    /// The part is a plain form field.
    pub fn is_field(&self) -> (r: bool)
        ensures
            r == self@.filename is None,
    {
        self.filename.is_none()
    }

    /// The content as text, if it is valid UTF-8.
    pub fn text(&self) -> (r: Option<&str>)
        ensures
            r is Some <==> valid_utf8(self@.data),
            r matches Some(s) ==> s@ == decode_utf8(self@.data),
    {
        utf8_str(self.data.as_slice())
    }

    /// The size of the content in bytes.
    pub fn size(&self) -> (r: usize)
        ensures
            r == match self@.spooled_len {
                Some(n) => n,
                None => self@.data.len() as usize,
            },
    {
        match self.spooled_len {
            Some(n) => n,
            None => self.data.len(),
        }
    }

    /// The content lives in a temporary file.
    pub fn is_spooled(&self) -> (r: bool)
        ensures
            r == self@.spooled_path is Some,
    {
        self.spooled_path.is_some()
    }

    /// The temporary file holding the content, if any.
    pub fn spooled_path(&self) -> (r: Option<&str>)
        ensures
            match self@.spooled_path {
                Some(p) => (r matches Some(s) && s@ == p),
                None => r is None,
            },
    {
        match &self.spooled_path {
            Some(p) => Some(p.as_str()),
            None => None,
        }
    }
}


impl Part {
    /// A copy of this part.
    pub fn duplicate(&self) -> (p: Self)
        ensures
            p@ == self@,
    {
        let mut headers: Vec<(String, String)> = Vec::new();
        let mut i: usize = 0;
        while i < self.headers.len()
            invariant
                i <= self.headers.len(),
                headers_view(headers@) == headers_view(self.headers@).take(i as int),
            decreases self.headers.len() - i,
        {
            let k = self.headers[i].0.clone();
            let v = self.headers[i].1.clone();
            let ghost kv = (k@, v@);
            let ghost before = headers_view(headers@);
            assert(kv == headers_view(self.headers@)[i as int]);
            headers.push((k, v));
            assert(headers_view(headers@) =~= before.push(kv));
            i += 1;
            assert(headers_view(self.headers@).take(i as int) =~= headers_view(self.headers@).take(i - 1).push(kv));
        }
        assert(headers_view(self.headers@).take(self.headers.len() as int) =~= headers_view(self.headers@));
        let data = copy_range(self.data.as_slice(), 0, self.data.len());
        assert(self.data@.subrange(0, self.data@.len() as int) == self.data@);
        Part {
            name: self.name.clone(),
            filename: match &self.filename {
                Some(f) => Some(f.clone()),
                None => None,
            },
            content_type: match &self.content_type {
                Some(c) => Some(c.clone()),
                None => None,
            },
            data,
            headers,
            spooled_path: match &self.spooled_path {
                Some(c) => Some(c.clone()),
                None => None,
            },
            spooled_len: self.spooled_len,
        }
    }
}

// ============================================================================
// Uploaded files
// ============================================================================

/// Where an upload's bytes live.
#[derive(Debug)]
pub enum UploadStorage {
    InMemory(Vec<u8>),
    SpooledTempFile { path: String, len: u64 },
}

/// The mathematical form of an [`UploadStorage`].
pub enum StorageView {
    InMemory(Seq<u8>),
    Spooled { path: Seq<char>, len: u64 },
}

/// An uploaded file with its metadata.
#[derive(Debug)]
pub struct UploadFile {
    /// The field name.
    pub field_name: String,
    /// The filename the client gave.
    pub filename: String,
    /// Content-Type of the file.
    pub content_type: String,
    storage: UploadStorage,
    spool_threshold: usize,
    cursor: u64,
    closed: bool,
}

/// The mathematical form of an [`UploadFile`].
pub struct UploadFileView {
    pub field_name: Seq<char>,
    pub filename: Seq<char>,
    pub content_type: Seq<char>,
    pub storage: StorageView,
    pub spool_threshold: usize,
    /// Position of the next read or write.
    pub cursor: u64,
    pub closed: bool,
}

impl View for UploadFile {
    type V = UploadFileView;

    closed spec fn view(&self) -> UploadFileView {
        UploadFileView {
            field_name: self.field_name@,
            filename: self.filename@,
            content_type: self.content_type@,
            storage: match self.storage {
                UploadStorage::InMemory(d) => StorageView::InMemory(d@),
                UploadStorage::SpooledTempFile { path, len } => StorageView::Spooled { path: path@, len },
            },
            spool_threshold: self.spool_threshold,
            cursor: self.cursor,
            closed: self.closed,
        }
    }
}

/// The upload made from a part: `None` for a plain field; the content type
/// defaults to `application/octet-stream`.
pub open spec fn upload_of(p: PartView, spool_threshold: usize) -> Option<UploadFileView> {
    match p.filename {
        None => None,
        Some(f) => Some(UploadFileView {
            field_name: p.name,
            filename: f,
            content_type: match p.content_type {
                Some(c) => c,
                None => "application/octet-stream"@,
            },
            storage: match p.spooled_path {
                Some(path) => StorageView::Spooled {
                    path,
                    len: match p.spooled_len {
                        Some(n) => n as u64,
                        None => p.data.len() as u64,
                    },
                },
                None => StorageView::InMemory(p.data),
            },
            spool_threshold,
            cursor: 0,
            closed: false,
        }),
    }
}

/// Only a file part makes an upload, and the upload keeps the part's field
/// name, file name and bytes (in memory unless the part was spooled), with
/// `application/octet-stream` for a part without a content type.
pub proof fn lemma_upload_of_file(p: PartView, spool_threshold: usize)
    ensures
        upload_of(p, spool_threshold) is Some <==> p.filename is Some,
        upload_of(p, spool_threshold) matches Some(u) ==> {
            &&& u.field_name == p.name
            &&& Some(u.filename) == p.filename
            &&& p.content_type is None ==> u.content_type == "application/octet-stream"@
            &&& p.spooled_path is None ==> u.storage == StorageView::InMemory(p.data)
            &&& u.cursor == 0 && !u.closed
        },
{
}

/// The extension of a filename: the text after its last `.`, when there is
/// a dot and the text after it is not empty.
pub open spec fn extension_of(f: Seq<char>) -> Option<Seq<char>> {
    match last_dot(f, f.len() as int) {
        Some(i) => if i + 1 < f.len() { Some(f.skip(i + 1)) } else { None },
        None => None,
    }
}

/// The last index below `end` that holds a `.`.
pub open spec fn last_dot(f: Seq<char>, end: int) -> Option<int>
    decreases end,
{
    if end <= 0 || end > f.len() {
        None
    } else if f[end - 1] == '.' {
        Some(end - 1)
    } else {
        last_dot(f, end - 1)
    }
}

impl UploadFile {
    /// The upload made from a file part, with the default spool threshold.
    pub fn from_part(part: Part) -> (r: Option<Self>)
        ensures
            match upload_of(part@, DEFAULT_SPOOL_THRESHOLD) {
                Some(u) => (r matches Some(f) && f@ == u),
                None => r is None,
            },
    {
        Self::from_part_with_spool_threshold(part, DEFAULT_SPOOL_THRESHOLD)
    }

    /// The upload made from a file part; `None` for a plain field.
    pub fn from_part_with_spool_threshold(part: Part, spool_threshold: usize) -> (r: Option<Self>)
        ensures
            match upload_of(part@, spool_threshold) {
                Some(u) => (r matches Some(f) && f@ == u),
                None => r is None,
            },
    {
        let Part { name, filename, content_type, data, headers: _, spooled_path, spooled_len } = part;
        let filename = match filename {
            Some(f) => f,
            None => {
                return None;
            },
        };
        let storage = match spooled_path {
            Some(path) => {
                let len = match spooled_len {
                    Some(n) => n,
                    None => data.len(),
                };
                UploadStorage::SpooledTempFile { path, len: len as u64 }
            },
            None => UploadStorage::InMemory(data),
        };
        let content_type = match content_type {
            Some(c) => c,
            None => String::from_str("application/octet-stream"),
        };
        Some(UploadFile { field_name: name, filename, content_type, storage, spool_threshold, cursor: 0, closed: false })
    }

    /// The content is in memory and larger than the spool threshold, so it
    /// should move to a temporary file.
    pub fn needs_spool(&self) -> (r: bool)
        ensures
            r == (self@.storage matches StorageView::InMemory(d) && d.len() > self@.spool_threshold),
    {
        match &self.storage {
            UploadStorage::InMemory(d) => d.len() > self.spool_threshold,
            UploadStorage::SpooledTempFile { .. } => false,
        }
    }

    /// The in-memory content has been written to the file at `path`.
    pub fn mark_spooled(&mut self, path: String)
        ensures
            final(self)@ == (UploadFileView {
                storage: match old(self)@.storage {
                    StorageView::InMemory(d) => StorageView::Spooled { path: path@, len: d.len() as u64 },
                    s => s,
                },
                ..old(self)@
            }),
    {
        let len = match &self.storage {
            UploadStorage::InMemory(d) => Some(d.len()),
            UploadStorage::SpooledTempFile { .. } => None,
        };
        if let Some(n) = len {
            self.storage = UploadStorage::SpooledTempFile { path, len: n as u64 };
        }
    }

    /// The in-memory content, if the file is not spooled.
    pub fn memory_bytes(&self) -> (r: Option<&[u8]>)
        ensures
            match self@.storage {
                StorageView::InMemory(d) => (r matches Some(b) && b@ == d),
                _ => r is None,
            },
    {
        match &self.storage {
            UploadStorage::InMemory(d) => Some(d.as_slice()),
            UploadStorage::SpooledTempFile { .. } => None,
        }
    }

    /// The file size in bytes.
    pub fn size(&self) -> (r: usize)
        ensures
            r == match self@.storage {
                StorageView::InMemory(d) => d.len() as usize,
                StorageView::Spooled { len, .. } => if len > usize::MAX { usize::MAX } else { len as usize },
            },
    {
        match &self.storage {
            UploadStorage::InMemory(d) => d.len(),
            UploadStorage::SpooledTempFile { len, .. } => {
                if *len as u128 > usize::MAX as u128 {
                    usize::MAX
                } else {
                    *len as usize
                }
            },
        }
    }

    /// The file lives in a temporary file.
    pub fn is_spooled(&self) -> (r: bool)
        ensures
            r == self@.storage is Spooled,
    {
        match &self.storage {
            UploadStorage::InMemory(_) => false,
            UploadStorage::SpooledTempFile { .. } => true,
        }
    }

    /// The temporary file, if the upload is spooled.
    pub fn spooled_path(&self) -> (r: Option<&str>)
        ensures
            match self@.storage {
                StorageView::Spooled { path, .. } => (r matches Some(s) && s@ == path),
                _ => r is None,
            },
    {
        match &self.storage {
            UploadStorage::InMemory(_) => None,
            UploadStorage::SpooledTempFile { path, .. } => Some(path.as_str()),
        }
    }

    /// The file extension, if the filename has one.
    pub fn extension(&self) -> (r: Option<String>)
        ensures
            match extension_of(self@.filename) {
                Some(e) => (r matches Some(s) && s@ == e),
                None => r is None,
            },
    {
        let cs = chars_of(self.filename.as_str());
        let mut end = cs.len();
        while end > 0 && cs[end - 1] != '.'
            invariant
                end <= cs.len(),
                cs@ == self.filename@,
                last_dot(cs@, cs.len() as int) == last_dot(cs@, end as int),
            decreases end,
        {
            end -= 1;
        }
        if end == 0 || end >= cs.len() {
            return None;
        }
        let ext = slice_chars(cs.as_slice(), end, cs.len());
        assert(ext@ == cs@.skip(end as int));
        Some(string_from_chars(ext.as_slice()))
    }
}

// ============================================================================
// Reading, writing and seeking uploads
// ============================================================================

/// Why an operation on an upload was refused.
#[derive(Debug, Clone, Copy, PartialEq, Eq, Structural)]
pub enum UploadError {
    /// The upload was closed.
    Closed,
    /// A seek before the start of the file.
    SeekBeforeStart,
    /// A seek past what a `u64` can address.
    SeekOutOfRange,
}

impl UploadError {
    pub fn message(&self) -> (s: &'static str)
        ensures
            s@ == match *self {
                UploadError::Closed => "upload file is closed"@,
                UploadError::SeekBeforeStart => "seek before start of file"@,
                UploadError::SeekOutOfRange => "seek target exceeds addressable range"@,
            },
    {
        match self {
            UploadError::Closed => "upload file is closed",
            UploadError::SeekBeforeStart => "seek before start of file",
            UploadError::SeekOutOfRange => "seek target exceeds addressable range",
        }
    }
}

/// A seek target, as `std::io::SeekFrom` gives it.
#[derive(Debug, Clone, Copy, PartialEq, Eq, Structural)]
pub enum SeekPosition {
    /// From the start of the file.
    Start(u64),
    /// From the end of the file.
    End(i64),
    /// From the cursor.
    Current(i64),
}

/// The position a seek moves to, from the cursor `current` in a file of
/// `len` bytes: refused before the start, or past `u64::MAX`.
pub open spec fn seek_target(current: u64, len: u64, position: SeekPosition) -> Result<u64, UploadError> {
    let next: int = match position {
        SeekPosition::Start(o) => o as int,
        SeekPosition::End(o) => len + o,
        SeekPosition::Current(o) => current + o,
    };
    if next < 0 {
        Err(UploadError::SeekBeforeStart)
    } else if next > u64::MAX {
        Err(UploadError::SeekOutOfRange)
    } else {
        Ok(next as u64)
    }
}

/// Resolves a seek target.
pub fn resolve_seek(current: u64, len: u64, position: SeekPosition) -> (r: Result<u64, UploadError>)
    ensures
        r == seek_target(current, len, position),
{
    let next: i128 = match position {
        SeekPosition::Start(o) => o as i128,
        SeekPosition::End(o) => len as i128 + o as i128,
        SeekPosition::Current(o) => current as i128 + o as i128,
    };
    if next < 0 {
        Err(UploadError::SeekBeforeStart)
    } else if next > u64::MAX as i128 {
        Err(UploadError::SeekOutOfRange)
    } else {
        Ok(next as u64)
    }
}

/// The cursor as an index into memory (`usize::MAX` when it is larger).
pub open spec fn cursor_index(cursor: u64) -> int {
    if cursor > usize::MAX {
        usize::MAX as int
    } else {
        cursor as int
    }
}

/// The end of a read of `size` bytes (all when `None`) from `start` in `len`
/// bytes.
pub open spec fn read_end(start: int, len: int, size: Option<usize>) -> int {
    match size {
        Some(n) => if start + n < len {
            start + n
        } else {
            len
        },
        None => len,
    }
}

/// `d` with `bytes` written at `start`, zero-filled up to `start` if it was
/// shorter.
pub open spec fn written(d: Seq<u8>, start: int, bytes: Seq<u8>) -> Seq<u8> {
    let end = start + bytes.len();
    Seq::new(
        if end > d.len() {
            end as nat
        } else {
            d.len()
        },
        |i: int|
            if start <= i < end {
                bytes[i - start]
            } else if i < d.len() {
                d[i]
            } else {
                0u8
            },
    )
}

impl UploadFile {
    /// Fails once the upload is closed.
    pub fn ensure_open(&self) -> (r: Result<(), UploadError>)
        ensures
            r is Ok <==> !self@.closed,
            r is Err ==> r == Err::<(), UploadError>(UploadError::Closed),
    {
        if self.closed {
            Err(UploadError::Closed)
        } else {
            Ok(())
        }
    }

    /// The upload has been closed.
    pub fn is_closed(&self) -> (r: bool)
        ensures
            r == self@.closed,
    {
        self.closed
    }

    /// The position of the next read or write.
    pub fn cursor(&self) -> (r: u64)
        ensures
            r == self@.cursor,
    {
        self.cursor
    }

    /// The length in bytes, as a `u64`.
    pub fn len_u64(&self) -> (r: u64)
        ensures
            r == match self@.storage {
                StorageView::InMemory(d) => d.len() as u64,
                StorageView::Spooled { len, .. } => len,
            },
    {
        match &self.storage {
            UploadStorage::InMemory(d) => d.len() as u64,
            UploadStorage::SpooledTempFile { len, .. } => *len,
        }
    }

    /// Reads from the cursor of an in-memory upload: up to `size` bytes, or
    /// to the end when `size` is `None`; nothing at or past the end. `None`
    /// when the upload is spooled.
    pub fn read_memory(&mut self, size: Option<usize>) -> (r: Option<Vec<u8>>)
        ensures
            match old(self)@.storage {
                StorageView::InMemory(d) => {
                    let start = cursor_index(old(self)@.cursor);
                    if start >= d.len() {
                        (r matches Some(v) && v@.len() == 0) && final(self)@ == old(self)@
                    } else {
                        let end = read_end(start, d.len() as int, size);
                        (r matches Some(v) && v@ == d.subrange(start, end)) && final(self)@ == (UploadFileView {
                            cursor: end as u64,
                            ..old(self)@
                        })
                    }
                },
                StorageView::Spooled { .. } => r is None && final(self)@ == old(self)@,
            },
    {
        match &self.storage {
            UploadStorage::InMemory(data) => {
                let start: usize = if self.cursor as u128 > usize::MAX as u128 {
                    usize::MAX
                } else {
                    self.cursor as usize
                };
                if start >= data.len() {
                    return Some(Vec::new());
                }
                let end: usize = match size {
                    Some(n) => if n < data.len() - start {
                        start + n
                    } else {
                        data.len()
                    },
                    None => data.len(),
                };
                let out = copy_range(data.as_slice(), start, end);
                self.cursor = end as u64;
                Some(out)
            },
            UploadStorage::SpooledTempFile { .. } => None,
        }
    }

    /// Writes at the cursor of an in-memory upload, zero-filling a gap
    /// between the end and the cursor, and moves the cursor past the bytes;
    /// the number of bytes written. `None` when the upload is spooled.
    pub fn write_memory(&mut self, bytes: &[u8]) -> (r: Option<usize>)
        requires
            old(self)@.storage is InMemory ==> cursor_index(old(self)@.cursor) + bytes@.len() <= usize::MAX,
        ensures
            match old(self)@.storage {
                StorageView::InMemory(d) => r == Some(bytes@.len() as usize) && if bytes@.len() == 0 {
                    final(self)@ == old(self)@
                } else {
                    let start = cursor_index(old(self)@.cursor);
                    final(self)@ == (UploadFileView {
                        storage: StorageView::InMemory(written(d, start, bytes@)),
                        cursor: (start + bytes@.len()) as u64,
                        ..old(self)@
                    })
                },
                StorageView::Spooled { .. } => r is None && final(self)@ == old(self)@,
            },
    {
        if self.storage.is_spooled_storage() {
            return None;
        }
        if bytes.len() == 0 {
            return Some(0);
        }
        let mut storage = UploadStorage::InMemory(Vec::new());
        std::mem::swap(&mut storage, &mut self.storage);
        let mut data = match storage {
            UploadStorage::InMemory(d) => d,
            UploadStorage::SpooledTempFile { .. } => Vec::new(),
        };
        let ghost d0 = data@;
        let start: usize = if self.cursor as u128 > usize::MAX as u128 {
            usize::MAX
        } else {
            self.cursor as usize
        };
        let end = start + bytes.len();
        while data.len() < end
            invariant
                d0.len() <= data@.len() <= end || data@.len() == d0.len(),
                forall|i: int| 0 <= i < data@.len() ==> #[trigger] data@[i] == if i < d0.len() {
                    d0[i]
                } else {
                    0u8
                },
            decreases end - data@.len(),
        {
            data.push(0u8);
        }
        let mut k: usize = 0;
        while k < bytes.len()
            invariant
                start + bytes@.len() == end,
                data@.len() == if end > d0.len() {
                    end as nat
                } else {
                    d0.len()
                },
                k <= bytes@.len(),
                forall|i: int| 0 <= i < data@.len() ==> #[trigger] data@[i] == if start <= i < start + k {
                    bytes@[i - start]
                } else if i < d0.len() {
                    d0[i]
                } else {
                    0u8
                },
            decreases bytes@.len() - k,
        {
            data.set(start + k, bytes[k]);
            k += 1;
        }
        assert(data@ =~= written(d0, start as int, bytes@));
        self.storage = UploadStorage::InMemory(data);
        self.cursor = end as u64;
        Some(bytes.len())
    }

    /// How many bytes a read of `size` (to the end when `None`) takes from a
    /// spooled file at the cursor.
    pub fn spooled_read_limit(&self, size: Option<usize>) -> (r: u64)
        ensures
            r == match size {
                Some(n) => n as u64,
                None => match self@.storage {
                    StorageView::Spooled { len, .. } => if len > self@.cursor {
                        (len - self@.cursor) as u64
                    } else {
                        0
                    },
                    StorageView::InMemory(d) => 0,
                },
            },
    {
        match size {
            Some(n) => n as u64,
            None => match &self.storage {
                UploadStorage::SpooledTempFile { len, .. } => {
                    if *len > self.cursor {
                        *len - self.cursor
                    } else {
                        0
                    }
                },
                UploadStorage::InMemory(_) => 0,
            },
        }
    }

    /// `n` bytes were read from the spooled file: the cursor moves past them.
    pub fn note_spooled_read(&mut self, n: usize)
        ensures
            final(self)@ == (UploadFileView {
                cursor: if old(self)@.cursor + n > u64::MAX {
                    u64::MAX
                } else {
                    (old(self)@.cursor + n) as u64
                },
                ..old(self)@
            }),
    {
        let n64 = n as u64;
        self.cursor = if self.cursor > u64::MAX - n64 {
            u64::MAX
        } else {
            self.cursor + n64
        };
    }

    /// `n` bytes were written to the spooled file at the cursor: the cursor
    /// moves past them and the length grows to reach it.
    pub fn note_spooled_write(&mut self, n: usize)
        ensures
            ({
                let c = if old(self)@.cursor + n > u64::MAX {
                    u64::MAX
                } else {
                    (old(self)@.cursor + n) as u64
                };
                final(self)@ == (UploadFileView {
                    cursor: c,
                    storage: match old(self)@.storage {
                        StorageView::Spooled { path, len } => StorageView::Spooled {
                            path,
                            len: if c > len {
                                c
                            } else {
                                len
                            },
                        },
                        s => s,
                    },
                    ..old(self)@
                })
            }),
    {
        self.note_spooled_read(n);
        let mut storage = UploadStorage::InMemory(Vec::new());
        std::mem::swap(&mut storage, &mut self.storage);
        self.storage = match storage {
            UploadStorage::SpooledTempFile { path, len } => UploadStorage::SpooledTempFile {
                path,
                len: if self.cursor > len {
                    self.cursor
                } else {
                    len
                },
            },
            other => other,
        };
    }

    /// Moves the cursor; refused once closed, before the start, or past
    /// `u64::MAX`. The new cursor.
    pub fn seek(&mut self, position: SeekPosition) -> (r: Result<u64, UploadError>)
        ensures
            old(self)@.closed ==> r == Err::<u64, UploadError>(UploadError::Closed) && final(self)@ == old(self)@,
            !old(self)@.closed ==> {
                let len = match old(self)@.storage {
                    StorageView::InMemory(d) => d.len() as u64,
                    StorageView::Spooled { len, .. } => len,
                };
                r == seek_target(old(self)@.cursor, len, position) && match r {
                    Ok(c) => final(self)@ == (UploadFileView { cursor: c, ..old(self)@ }),
                    Err(_) => final(self)@ == old(self)@,
                }
            },
    {
        if self.closed {
            return Err(UploadError::Closed);
        }
        let len = self.len_u64();
        let next = resolve_seek(self.cursor, len, position);
        match next {
            Ok(c) => {
                self.cursor = c;
                Ok(c)
            },
            Err(e) => Err(e),
        }
    }

    /// The upload is closed (after its temporary file, if any, is removed).
    pub fn mark_closed(&mut self)
        ensures
            final(self)@ == (UploadFileView { closed: true, ..old(self)@ }),
    {
        self.closed = true;
    }
}

impl UploadStorage {
    fn is_spooled_storage(&self) -> (r: bool)
        ensures
            r == (self is SpooledTempFile),
    {
        match self {
            UploadStorage::InMemory(_) => false,
            UploadStorage::SpooledTempFile { .. } => true,
        }
    }
}

// ============================================================================
// Content-Type boundary
// ============================================================================

/// Drops every leading and trailing `c`.
pub open spec fn strip_char(s: Seq<char>, c: char) -> Seq<char> {
    strip_char_end(strip_char_start(s, c), c)
}

pub open spec fn strip_char_start(s: Seq<char>, c: char) -> Seq<char>
    decreases s.len(),
{
    if s.len() > 0 && s[0] == c {
        strip_char_start(s.drop_first(), c)
    } else {
        s
    }
}

pub open spec fn strip_char_end(s: Seq<char>, c: char) -> Seq<char>
    decreases s.len(),
{
    if s.len() > 0 && s.last() == c {
        strip_char_end(s.drop_last(), c)
    } else {
        s
    }
}

fn stripped(cs: &[char], c: char) -> (r: Vec<char>)
    ensures
        r@ == strip_char(cs@, c),
{
    let mut lo: usize = 0;
    assert(cs@.subrange(0, cs.len() as int) == cs@);
    while lo < cs.len() && cs[lo] == c
        invariant
            lo <= cs.len(),
            strip_char_start(cs@, c) == strip_char_start(cs@.subrange(lo as int, cs.len() as int), c),
        decreases cs.len() - lo,
    {
        assert(cs@.subrange(lo + 1, cs.len() as int) == cs@.subrange(lo as int, cs.len() as int).drop_first());
        lo += 1;
    }
    let mut hi: usize = cs.len();
    while hi > lo && cs[hi - 1] == c
        invariant
            lo <= hi <= cs.len(),
            strip_char_end(cs@.subrange(lo as int, cs.len() as int), c) == strip_char_end(cs@.subrange(lo as int, hi as int), c),
        decreases hi,
    {
        assert(cs@.subrange(lo as int, hi - 1) == cs@.subrange(lo as int, hi as int).drop_last());
        hi -= 1;
    }
    slice_chars(cs, lo, hi)
}

/// The value of the first `boundary=` parameter among `params`.
pub open spec fn boundary_param(params: Seq<Seq<char>>) -> Result<Seq<char>, MultipartError>
    decreases params.len(),
{
    if params.len() == 0 {
        Err(MultipartError::MissingBoundary)
    } else {
        let p = trim(params[0]);
        match find_char(p, '=', 0) {
            None => boundary_param(params.drop_first()),
            Some(i) => if eq_ignore_case(trim(p.take(i)), "boundary"@) {
                let b = strip_char(strip_char(trim(p.skip(i + 1)), '"'), '\'');
                if b.len() == 0 || encode_utf8(b).len() > MAX_BOUNDARY_LEN {
                    Err(MultipartError::InvalidBoundary)
                } else {
                    Ok(b)
                }
            } else {
                boundary_param(params.drop_first())
            },
        }
    }
}

/// The boundary that a multipart Content-Type announces.
pub open spec fn boundary_of(content_type: Seq<char>) -> Result<Seq<char>, MultipartError> {
    let segs = split_char(trim(content_type), ';');
    if !eq_ignore_case(trim(segs[0]), "multipart/form-data"@) {
        Err(MultipartError::InvalidBoundary)
    } else {
        boundary_param(segs.drop_first())
    }
}

pub proof fn lemma_split_char_nonempty(s: Seq<char>, c: char)
    ensures
        split_char(s, c).len() >= 1,
    decreases s.len(),
{
    lemma_find_char_bounds(s, c, 0);
}

/// A text takes at least one and at most four bytes per character in UTF-8.
pub proof fn lemma_encode_len_bounds(s: Seq<char>)
    ensures
        s.len() <= encode_utf8(s).len() <= 4 * s.len(),
    decreases s.len(),
{
    if s.len() > 0 {
        lemma_encode_len_bounds(s.drop_first());
    }
}

/// Reads the boundary from a `multipart/form-data` Content-Type.
pub fn parse_boundary(content_type: &str) -> (r: Result<String, MultipartError>)
    ensures
        match boundary_of(content_type@) {
            Ok(b) => (r matches Ok(s) && s@ == b),
            Err(e) => r == Err::<String, MultipartError>(e),
        },
{
    let cs = chars_of(content_type);
    let t = trimmed(cs.as_slice());
    let segs = split_chars(t.as_slice(), ';');
    proof {
        lemma_split_char_nonempty(trim(cs@), ';');
    }
    assert(segs@.len() == vecs_view(segs@).len());
    let main = trimmed(segs[0].as_slice());
    assert(vecs_view(segs@)[0] == segs@[0]@);
    if !chars_eq_ignore_case(main.as_slice(), "multipart/form-data") {
        return Err(MultipartError::InvalidBoundary);
    }
    let mut i: usize = 1;
    while i < segs.len()
        invariant
            1 <= i <= segs.len(),
            vecs_view(segs@) == split_char(trim(content_type@), ';'),
            boundary_of(content_type@) == boundary_param(vecs_view(segs@).skip(i as int)),
        decreases segs.len() - i,
    {
        let ghost rest = vecs_view(segs@).skip(i as int);
        assert(rest[0] == segs@[i as int]@);
        assert(rest.drop_first() == vecs_view(segs@).skip(i + 1));
        let p = trimmed(segs[i].as_slice());
        assert(p@ == trim(rest[0]));
        proof {
            lemma_find_char_bounds(p@, '=', 0);
        }
        match find_char_from(p.as_slice(), '=', 0) {
            None => {},
            Some(e) => {
                let k = slice_chars(p.as_slice(), 0, e);
                let kt = trimmed(k.as_slice());
                assert(k@ == p@.take(e as int));
                assert(boundary_param(rest) == (if eq_ignore_case(trim(p@.take(e as int)), "boundary"@) {
                    let b = strip_char(strip_char(trim(p@.skip(e + 1)), '"'), '\'');
                    if b.len() == 0 || encode_utf8(b).len() > MAX_BOUNDARY_LEN {
                        Err(MultipartError::InvalidBoundary)
                    } else {
                        Ok(b)
                    }
                } else {
                    boundary_param(rest.drop_first())
                }));
                if chars_eq_ignore_case(kt.as_slice(), "boundary") {
                    let v = slice_chars(p.as_slice(), e + 1, p.len());
                    assert(v@ == p@.skip(e + 1));
                    let vt = trimmed(v.as_slice());
                    let b1 = stripped(vt.as_slice(), '"');
                    let b2 = stripped(b1.as_slice(), '\'');
                    let s = string_from_chars(b2.as_slice());
                    proof {
                        lemma_encode_len_bounds(b2@);
                    }
                    if b2.len() == 0 || b2.len() > MAX_BOUNDARY_LEN {
                        return Err(MultipartError::InvalidBoundary);
                    }
                    if s.as_str().len() > MAX_BOUNDARY_LEN {
                        return Err(MultipartError::InvalidBoundary);
                    }
                    return Ok(s);
                }
            },
        }
        i += 1;
    }
    assert(vecs_view(segs@).skip(segs.len() as int) =~= Seq::<Seq<char>>::empty());
    Err(MultipartError::MissingBoundary)
}

// ============================================================================
// Content-Disposition
// ============================================================================

/// Removes one pair of matching quotes around the trimmed text.
pub open spec fn unquote_spec(s: Seq<char>) -> Seq<char> {
    let t = trim(s);
    if t.len() >= 2 && ((t[0] == '"' && t.last() == '"') || (t[0] == '\'' && t.last() == '\'')) {
        t.subrange(1, t.len() - 1)
    } else {
        t
    }
}

/// Unquotes a parameter value.
pub fn unquote(s: &[char]) -> (r: Vec<char>)
    ensures
        r@ == unquote_spec(s@),
{
    let t = trimmed(s);
    let n = t.len();
    if n >= 2 && ((t[0] == '"' && t[n - 1] == '"') || (t[0] == '\'' && t[n - 1] == '\'')) {
        slice_chars(t.as_slice(), 1, n - 1)
    } else {
        t
    }
}

/// A filename that could leave its directory.
pub open spec fn has_traversal(f: Seq<char>) -> bool {
    has_substr(f, seq!['.', '.']) || f.contains('/') || f.contains('\\') || f.contains('\0')
}

/// Reads `name` and `filename` from the `;`-separated parameters; later
/// parameters override earlier ones.
pub open spec fn disposition_fold(
    params: Seq<Seq<char>>,
    name: Option<Seq<char>>,
    filename: Option<Seq<char>>,
) -> Result<(Seq<char>, Option<Seq<char>>), MultipartError>
    decreases params.len(),
{
    if params.len() == 0 {
        match name {
            None => Err(MultipartError::InvalidContentDisposition { detail: "missing name parameter" }),
            Some(n) => Ok((n, filename)),
        }
    } else {
        let p = trim(params[0]);
        let rest = params.drop_first();
        if eq_ignore_case(p, "form-data"@) {
            disposition_fold(rest, name, filename)
        } else {
            match find_char(p, '=', 0) {
                None => disposition_fold(rest, name, filename),
                Some(i) => {
                    let key = trim(p.take(i));
                    let value = trim(p.skip(i + 1));
                    if eq_ignore_case(key, "name"@) {
                        disposition_fold(rest, Some(unquote_spec(value)), filename)
                    } else if eq_ignore_case(key, "filename"@) {
                        let u = unquote_spec(value);
                        if has_traversal(u) {
                            Err(MultipartError::InvalidContentDisposition {
                                detail: "filename contains path traversal characters",
                            })
                        } else {
                            disposition_fold(rest, name, Some(u))
                        }
                    } else {
                        disposition_fold(rest, name, filename)
                    }
                },
            }
        }
    }
}

/// The field name and filename a Content-Disposition value gives.
pub open spec fn disposition_of(value: Seq<char>) -> Result<(Seq<char>, Option<Seq<char>>), MultipartError> {
    disposition_fold(split_char(value, ';'), None, None)
}

/// Parses a Content-Disposition header value.
pub fn parse_content_disposition(value: &str) -> (r: Result<(String, Option<String>), MultipartError>)
    ensures
        match disposition_of(value@) {
            Ok((n, f)) => (r matches Ok((rn, rf)) && rn@ == n && opt_string_view(rf) == f),
            Err(e) => r == Err::<(String, Option<String>), MultipartError>(e),
        },
{
    let cs = chars_of(value);
    let segs = split_chars(cs.as_slice(), ';');
    let mut name: Option<Vec<char>> = None;
    let mut filename: Option<Vec<char>> = None;
    let mut i: usize = 0;
    assert(vecs_view(segs@).skip(0) == vecs_view(segs@));
    while i < segs.len()
        invariant
            i <= segs.len(),
            vecs_view(segs@) == split_char(value@, ';'),
            disposition_of(value@) == disposition_fold(
                vecs_view(segs@).skip(i as int),
                match name { Some(n) => Some(n@), None => None::<Seq<char>> },
                match filename { Some(n) => Some(n@), None => None::<Seq<char>> },
            ),
        decreases segs.len() - i,
    {
        let ghost rest = vecs_view(segs@).skip(i as int);
        assert(rest[0] == segs@[i as int]@);
        assert(rest.drop_first() == vecs_view(segs@).skip(i + 1));
        let p = trimmed(segs[i].as_slice());
        let plen = p.len();
        assert(p@ == trim(rest[0]));
        if !chars_eq_ignore_case(p.as_slice(), "form-data") {
            proof {
                lemma_find_char_bounds(p@, '=', 0);
            }
            match find_char_from(p.as_slice(), '=', 0) {
                None => {},
                Some(e) => {
                    let k = slice_chars(p.as_slice(), 0, e);
                    let key = trimmed(k.as_slice());
                    let v = slice_chars(p.as_slice(), e + 1, plen);
                    assert(k@ == p@.take(e as int));
                    assert(v@ == p@.skip(e + 1));
                    let vt = trimmed(v.as_slice());
                    if chars_eq_ignore_case(key.as_slice(), "name") {
                        name = Some(unquote(vt.as_slice()));
                    } else if chars_eq_ignore_case(key.as_slice(), "filename") {
                        let u = unquote(vt.as_slice());
                        if has_double_dot(u.as_slice()) || has_char(u.as_slice(), '/') || has_char(u.as_slice(), '\\')
                            || has_char(u.as_slice(), '\0') {
                            return Err(MultipartError::InvalidContentDisposition {
                                detail: "filename contains path traversal characters",
                            });
                        }
                        filename = Some(u);
                    }
                },
            }
        }
        i += 1;
    }
    assert(vecs_view(segs@).skip(segs.len() as int) =~= Seq::<Seq<char>>::empty());
    let name = match name {
        Some(n) => n,
        None => {
            return Err(MultipartError::InvalidContentDisposition { detail: "missing name parameter" });
        },
    };
    let filename = match filename {
        Some(f) => Some(string_from_chars(f.as_slice())),
        None => None,
    };
    Ok((string_from_chars(name.as_slice()), filename))
}


// ============================================================================
// Parser
// ============================================================================

/// `b` occurs in `d` at index `i`.
pub open spec fn bytes_at(d: Seq<u8>, b: Seq<u8>, i: int) -> bool {
    0 <= i && i + b.len() <= d.len() && d.subrange(i, i + b.len()) == b
}

/// Two dashes start at index `i`.
pub open spec fn dashes_at(d: Seq<u8>, i: int) -> bool {
    0 <= i && i + 1 < d.len() && d[i] == 45u8 && d[i + 1] == 45u8
}

/// The first delimiter at or after `i`: the boundary at the start of the
/// data (unless inside a part) or right after a CRLF, followed by CRLF or
/// `--`. `None` when none is found, or when the first boundary candidate
/// that qualifies runs into the end of the data.
pub open spec fn boundary_scan(d: Seq<u8>, b: Seq<u8>, i: int, in_part: bool) -> Option<int>
    decreases d.len() - i,
{
    if i < 0 || i >= d.len() || i + b.len() > d.len() {
        None
    } else if !bytes_at(d, b, i) {
        boundary_scan(d, b, i + 1, in_part)
    } else if (in_part || i != 0) && !(i >= 2 && crlf_at(d, i - 2)) {
        boundary_scan(d, b, i + 1, in_part)
    } else if i + b.len() + 2 > d.len() {
        None
    } else if !(crlf_at(d, i + b.len()) || dashes_at(d, i + b.len())) {
        boundary_scan(d, b, i + 1, in_part)
    } else {
        Some(i)
    }
}

pub proof fn lemma_boundary_scan_bounds(d: Seq<u8>, b: Seq<u8>, i: int, in_part: bool)
    ensures
        boundary_scan(d, b, i, in_part) matches Some(j) ==> i <= j && bytes_at(d, b, j) && j + b.len()
            + 2 <= d.len() && ((in_part || j != 0) ==> j >= 2 && crlf_at(d, j - 2)),
    decreases d.len() - i,
{
    if i < 0 || i >= d.len() || i + b.len() > d.len() {
    } else if !bytes_at(d, b, i) || ((in_part || i != 0) && !(i >= 2 && crlf_at(d, i - 2))) {
        lemma_boundary_scan_bounds(d, b, i + 1, in_part);
    } else if i + b.len() + 2 > d.len() {
    } else if !(crlf_at(d, i + b.len()) || dashes_at(d, i + b.len())) {
        lemma_boundary_scan_bounds(d, b, i + 1, in_part);
    }
}

fn matches_at(d: &[u8], b: &[u8], i: usize) -> (r: bool)
    requires
        i + b.len() <= d.len(),
    ensures
        r == bytes_at(d@, b@, i as int),
{
    let mut k: usize = 0;
    while k < b.len()
        invariant
            k <= b.len(),
            i + b.len() <= d.len(),
            forall|j: int| 0 <= j < k ==> d@[i + j] == b@[j],
        decreases b.len() - k,
    {
        if d[i + k] != b[k] {
            assert(d@.subrange(i as int, i + b.len())[k as int] != b@[k as int]);
            return false;
        }
        k += 1;
    }
    assert(d@.subrange(i as int, i + b.len()) =~= b@);
    true
}

/// Inserts a header, replacing the value of an entry with the same name.
pub open spec fn header_insert(
    hs: Seq<(Seq<char>, Seq<char>)>,
    k: Seq<char>,
    v: Seq<char>,
) -> Seq<(Seq<char>, Seq<char>)>
    decreases hs.len(),
{
    if hs.len() == 0 {
        seq![(k, v)]
    } else if hs[0].0 == k {
        seq![(k, v)] + hs.drop_first()
    } else {
        seq![hs[0]] + header_insert(hs.drop_first(), k, v)
    }
}

/// Reads header lines from `pos` up to the blank line: the headers and the
/// position after the blank line.
pub open spec fn headers_from(d: Seq<u8>, pos: int, hs: Seq<(Seq<char>, Seq<char>)>) -> Result<
    (Seq<(Seq<char>, Seq<char>)>, int),
    MultipartError,
>
    decreases d.len() - pos,
{
    match find_crlf(d, pos) {
        None => Err(MultipartError::UnexpectedEof),
        Some(e) => if !(pos <= e && e + 2 <= d.len()) {
            Err(MultipartError::UnexpectedEof)
        } else if e == pos {
            Ok((hs, e + 2))
        } else {
            let line = d.subrange(pos, e);
            if !valid_utf8(line) {
                Err(MultipartError::InvalidPartHeaders { detail: "invalid UTF-8 in header" })
            } else {
                let cs = decode_utf8(line);
                match find_char(cs, ':', 0) {
                    None => headers_from(d, e + 2, hs),
                    Some(i) => headers_from(
                        d,
                        e + 2,
                        header_insert(hs, lower_all(trim(cs.take(i))), trim(cs.skip(i + 1))),
                    ),
                }
            }
        },
    }
}

pub proof fn lemma_headers_from_bounds(d: Seq<u8>, pos: int, hs: Seq<(Seq<char>, Seq<char>)>)
    ensures
        headers_from(d, pos, hs) matches Ok((_, e)) ==> pos + 2 <= e <= d.len() && crlf_at(d, e - 2),
    decreases d.len() - pos,
{
    lemma_find_crlf_bounds(d, pos);
    match find_crlf(d, pos) {
        None => {},
        Some(e) => if pos <= e && e + 2 <= d.len() && e != pos {
            let line = d.subrange(pos, e);
            if valid_utf8(line) {
                let cs = decode_utf8(line);
                match find_char(cs, ':', 0) {
                    None => lemma_headers_from_bounds(d, e + 2, hs),
                    Some(i) => lemma_headers_from_bounds(
                        d,
                        e + 2,
                        header_insert(hs, lower_all(trim(cs.take(i))), trim(cs.skip(i + 1))),
                    ),
                }
            }
        },
    }
}

/// The parts that parsing from the boundary at `pos` gives; `Panics` marks
/// a part whose content would start after its end (a boundary right after
/// the header block).
pub enum PartsOutcome {
    Parsed(Seq<PartView>),
    Fail(MultipartError),
    Panics,
}

pub open spec fn parsed_part(
    name: Seq<char>,
    filename: Option<Seq<char>>,
    hs: Seq<(Seq<char>, Seq<char>)>,
    data: Seq<u8>,
) -> PartView {
    PartView {
        name,
        filename,
        content_type: first_value(hs, "content-type"@),
        data,
        headers: hs,
        spooled_path: None,
        spooled_len: None,
    }
}

pub open spec fn parse_parts_from(
    d: Seq<u8>,
    b: Seq<u8>,
    cfg: MultipartConfigView,
    pos: int,
    count: int,
    total: int,
) -> PartsOutcome
    decreases d.len() - pos,
{
    let be = pos + b.len();
    if be + 2 <= d.len() && dashes_at(d, be) {
        PartsOutcome::Parsed(Seq::empty())
    } else if count >= cfg.max_fields {
        PartsOutcome::Fail(MultipartError::TooManyFields { count: (count + 1) as usize, max: cfg.max_fields })
    } else {
        if be + 2 > d.len() {
            PartsOutcome::Fail(MultipartError::UnexpectedEof)
        } else if !crlf_at(d, be) {
            PartsOutcome::Fail(MultipartError::InvalidFormat { detail: "expected CRLF after boundary" })
        } else {
            match headers_from(d, be + 2, Seq::empty()) {
                Err(e) => PartsOutcome::Fail(e),
                Ok((hs, he)) => match first_value(hs, "content-disposition"@) {
                    None => PartsOutcome::Fail(MultipartError::MissingContentDisposition),
                    Some(cd) => match disposition_of(cd) {
                        Err(e) => PartsOutcome::Fail(e),
                        Ok((name, filename)) => match boundary_scan(d, b, he, false) {
                            None => PartsOutcome::Fail(MultipartError::UnexpectedEof),
                            Some(de) => {
                                let trailing_crlf = de >= 2 && crlf_at(d, de - 2);
                                let data_end = if trailing_crlf { de - 2 } else { de };
                                if de <= pos || de > d.len() {
                                    PartsOutcome::Fail(MultipartError::UnexpectedEof)
                                } else if data_end < he {
                                    PartsOutcome::Panics
                                } else {
                                    let data = d.subrange(he, data_end);
                                    let t2 = total + data.len();
                                    if filename is Some && data.len() > cfg.max_file_size {
                                        PartsOutcome::Fail(MultipartError::FileTooLarge { size: data.len() as usize, max: cfg.max_file_size })
                                    } else if t2 > cfg.max_total_size {
                                        PartsOutcome::Fail(MultipartError::TotalTooLarge { size: t2 as usize, max: cfg.max_total_size })
                                    } else {
                                        match parse_parts_from(d, b, cfg, de, count + 1, t2) {
                                            PartsOutcome::Parsed(rest) => PartsOutcome::Parsed(
                                                seq![parsed_part(name, filename, hs, data)] + rest,
                                            ),
                                            other => other,
                                        }
                                    }
                                }
                            },
                        },
                    },
                },
            }
        }
    }
}

/// The number of data bytes of the parts.
pub open spec fn parts_total(ps: Seq<PartView>) -> int
    decreases ps.len(),
{
    if ps.len() == 0 {
        0
    } else {
        ps[0].data.len() + parts_total(ps.drop_first())
    }
}

/// Parts within the limits: no more than `max_fields`, no file larger than
/// `max_file_size`, no more than `max_total_size` bytes in all.
pub open spec fn within_limits(ps: Seq<PartView>, cfg: MultipartConfigView, count: int, total: int) -> bool {
    &&& count + ps.len() <= cfg.max_fields
    &&& total + parts_total(ps) <= cfg.max_total_size
    &&& forall|i: int| 0 <= i < ps.len() && (#[trigger] ps[i]).filename is Some ==> ps[i].data.len() <= cfg.max_file_size
}

proof fn lemma_parts_within_limits(d: Seq<u8>, b: Seq<u8>, cfg: MultipartConfigView, pos: int, count: int, total: int)
    requires
        0 <= count <= cfg.max_fields,
        0 <= total <= cfg.max_total_size,
    ensures
        parse_parts_from(d, b, cfg, pos, count, total) matches PartsOutcome::Parsed(ps) ==> within_limits(ps, cfg, count, total),
    decreases d.len() - pos,
{
    let be = pos + b.len();
    if be + 2 <= d.len() && dashes_at(d, be) {
        return;
    }
    if count >= cfg.max_fields {
        return;
    }
    if be + 2 > d.len() || !crlf_at(d, be) {
        return;
    }
    if let Ok((hs, he)) = headers_from(d, be + 2, Seq::empty()) {
        if let Some(cd) = first_value(hs, "content-disposition"@) {
            if let Ok((name, filename)) = disposition_of(cd) {
                if let Some(de) = boundary_scan(d, b, he, false) {
                    let trailing_crlf = de >= 2 && crlf_at(d, de - 2);
                    let data_end = if trailing_crlf { de - 2 } else { de };
                    if de <= pos || de > d.len() || data_end < he {
                        return;
                    }
                    let data = d.subrange(he, data_end);
                    let t2 = total + data.len();
                    if (filename is Some && data.len() > cfg.max_file_size) || t2 > cfg.max_total_size {
                        return;
                    }
                    lemma_parts_within_limits(d, b, cfg, de, count + 1, t2);
                    if let PartsOutcome::Parsed(rest) = parse_parts_from(d, b, cfg, de, count + 1, t2) {
                        let ps = seq![parsed_part(name, filename, hs, data)] + rest;
                        assert(ps.drop_first() =~= rest);
                        assert forall|i: int| 0 <= i < ps.len() && (#[trigger] ps[i]).filename is Some implies ps[i].data.len()
                            <= cfg.max_file_size by {
                            if i > 0 {
                                assert(ps[i] == rest[i - 1]);
                            }
                        }
                    }
                }
            }
        }
    }
}

/// The parser enforces its limits: a parsed body never has more parts than
/// `max_fields`, a file larger than `max_file_size`, or more than
/// `max_total_size` bytes of data in all.
pub proof fn lemma_parse_within_limits(d: Seq<u8>, b: Seq<u8>, cfg: MultipartConfigView)
    ensures
        parse_body_parts(d, b, cfg) matches PartsOutcome::Parsed(ps) ==> within_limits(ps, cfg, 0, 0),
{
    if let Some(p) = boundary_scan(d, b, 0, false) {
        lemma_parts_within_limits(d, b, cfg, p, 0, 0);
    }
}

/// What parsing a whole body gives.
pub open spec fn parse_body_parts(d: Seq<u8>, b: Seq<u8>, cfg: MultipartConfigView) -> PartsOutcome {
    match boundary_scan(d, b, 0, false) {
        None => PartsOutcome::Fail(MultipartError::UnexpectedEof),
        Some(p) => parse_parts_from(d, b, cfg, p, 0, 0),
    }
}

pub open spec fn parts_view(v: Seq<Part>) -> Seq<PartView> {
    v.map_values(|p: Part| p@)
}

/// Multipart parser for one boundary.
#[derive(Debug)]
pub struct MultipartParser {
    boundary: Vec<u8>,
    config: MultipartConfig,
}

/// The delimiter and limits of a [`MultipartParser`].
pub struct MultipartParserView {
    pub delimiter: Seq<u8>,
    pub config: MultipartConfigView,
}

impl View for MultipartParser {
    type V = MultipartParserView;

    closed spec fn view(&self) -> MultipartParserView {
        MultipartParserView { delimiter: self.boundary@, config: self.config@ }
    }
}

impl MultipartParser {
    /// A parser for `boundary`; parts are delimited by `--` and the boundary.
    pub fn new(boundary: &str, config: MultipartConfig) -> (p: Self)
        ensures
            p@.delimiter == seq![45u8, 45u8] + encode_utf8(boundary@),
            p@.config == config@,
    {
        let mut b: Vec<u8> = Vec::new();
        b.push(45u8);
        b.push(45u8);
        let raw = boundary.as_bytes();
        let mut i: usize = 0;
        while i < raw.len()
            invariant
                i <= raw@.len(),
                raw@ == encode_utf8(boundary@),
                b@ == seq![45u8, 45u8] + raw@.take(i as int),
            decreases raw.len() - i,
        {
            b.push(raw[i]);
            i += 1;
            assert(raw@.take(i as int) == raw@.take(i - 1).push(raw@[i - 1]));
        }
        assert(raw@.take(raw@.len() as int) == raw@);
        MultipartParser { boundary: b, config }
    }

    fn find_boundary_from(&self, data: &[u8], start: usize) -> (r: Result<usize, MultipartError>)
        ensures
            match boundary_scan(data@, self.boundary@, start as int, false) {
                Some(i) => r == Ok::<usize, MultipartError>(i as usize),
                None => r == Err::<usize, MultipartError>(MultipartError::UnexpectedEof),
            },
    {
        let blen = self.boundary.len();
        if data.len() < blen {
            return Err(MultipartError::UnexpectedEof);
        }
        let last = data.len() - blen;
        if data.len() == 0 {
            return Err(MultipartError::UnexpectedEof);
        }
        let mut i = start;
        while i <= last && i < data.len()
            invariant
                start <= i,
                last == data.len() - blen,
                blen == self.boundary@.len(),
                blen <= data.len(),
                boundary_scan(data@, self.boundary@, start as int, false) == boundary_scan(data@, self.boundary@, i as int, false),
            decreases data.len() - i,
        {
            if matches_at(data, self.boundary.as_slice(), i) {
                let before_ok = i == 0 || (i >= 2 && data[i - 2] == 13u8 && data[i - 1] == 10u8);
                if before_ok {
                    let be = i + blen;
                    if data.len() < 2 || be > data.len() - 2 {
                        return Err(MultipartError::UnexpectedEof);
                    }
                    let crlf = data[be] == 13u8 && data[be + 1] == 10u8;
                    let dd = data[be] == 45u8 && data[be + 1] == 45u8;
                    if crlf || dd {
                        return Ok(i);
                    }
                }
            }
            i += 1;
        }
        Err(MultipartError::UnexpectedEof)
    }

    fn find_boundary_in_part_data(&self, data: &[u8], start: usize) -> (r: Result<usize, MultipartError>)
        ensures
            match boundary_scan(data@, self.boundary@, start as int, true) {
                Some(i) => r == Ok::<usize, MultipartError>(i as usize),
                None => r == Err::<usize, MultipartError>(MultipartError::UnexpectedEof),
            },
    {
        let blen = self.boundary.len();
        if data.len() < blen {
            return Err(MultipartError::UnexpectedEof);
        }
        let last = data.len() - blen;
        if data.len() == 0 {
            return Err(MultipartError::UnexpectedEof);
        }
        let mut i = start;
        while i <= last && i < data.len()
            invariant
                start <= i,
                last == data.len() - blen,
                blen == self.boundary@.len(),
                blen <= data.len(),
                boundary_scan(data@, self.boundary@, start as int, true) == boundary_scan(data@, self.boundary@, i as int, true),
            decreases data.len() - i,
        {
            if matches_at(data, self.boundary.as_slice(), i) {
                let before_ok = i >= 2 && data[i - 2] == 13u8 && data[i - 1] == 10u8;
                if before_ok {
                    let be = i + blen;
                    if data.len() < 2 || be > data.len() - 2 {
                        return Err(MultipartError::UnexpectedEof);
                    }
                    let crlf = data[be] == 13u8 && data[be + 1] == 10u8;
                    let dd = data[be] == 45u8 && data[be + 1] == 45u8;
                    if crlf || dd {
                        return Ok(i);
                    }
                }
            }
            i += 1;
        }
        Err(MultipartError::UnexpectedEof)
    }

    fn parse_part_headers(&self, data: &[u8], start: usize) -> (r: Result<(Vec<(String, String)>, usize), MultipartError>)
        ensures
            match headers_from(data@, start as int, Seq::empty()) {
                Ok((hs, e)) => (r matches Ok((h, n)) && headers_view(h@) == hs && n == e),
                Err(err) => r == Err::<(Vec<(String, String)>, usize), MultipartError>(err),
            },
    {
        let mut headers: Vec<(String, String)> = Vec::new();
        let mut pos = start;
        assert(headers_view(headers@) =~= Seq::<(Seq<char>, Seq<char>)>::empty());
        loop
            invariant
                headers_from(data@, start as int, Seq::empty()) == headers_from(data@, pos as int, headers_view(headers@)),
            decreases data.len() - pos,
        {
            proof {
                lemma_find_crlf_bounds(data@, pos as int);
            }
            let line_end = match find_crlf_from(data, pos) {
                Some(e) => e,
                None => {
                    return Err(MultipartError::UnexpectedEof);
                },
            };
            if line_end == pos {
                return Ok((headers, line_end + 2));
            }
            let line = copy_range(data, pos, line_end);
            let text = match utf8_str(line.as_slice()) {
                Some(s) => s,
                None => {
                    return Err(MultipartError::InvalidPartHeaders { detail: "invalid UTF-8 in header" });
                },
            };
            let cs = chars_of(text);
            proof {
                lemma_find_char_bounds(cs@, ':', 0);
            }
            match find_char_from(cs.as_slice(), ':', 0) {
                None => {},
                Some(i) => {
                    let k = slice_chars(cs.as_slice(), 0, i);
                    let kt = trimmed(k.as_slice());
                    let kl = lower_chars(kt.as_slice());
                    let v = slice_chars(cs.as_slice(), i + 1, cs.len());
                    let vt = trimmed(v.as_slice());
                    assert(k@ == cs@.take(i as int));
                    assert(v@ == cs@.skip(i + 1));
                    insert_header(&mut headers, string_from_chars(kl.as_slice()), string_from_chars(vt.as_slice()));
                },
            }
            pos = line_end + 2;
        }
    }

    /// Parses every part of a complete body.
    pub fn parse(&self, body: &[u8]) -> (r: Result<Vec<Part>, MultipartError>)
        requires
            !(parse_body_parts(body@, self@.delimiter, self@.config) is Panics),
        ensures
            match parse_body_parts(body@, self@.delimiter, self@.config) {
                PartsOutcome::Parsed(ps) => (r matches Ok(v) && parts_view(v@) == ps),
                PartsOutcome::Fail(e) => r == Err::<Vec<Part>, MultipartError>(e),
                PartsOutcome::Panics => false,
            },
    {
        match self.parse_outcome(body) {
            Some(r) => r,
            None => {
                proof {
                    assert(false);
                }
                Err(MultipartError::UnexpectedEof)
            },
        }
    }

    /// Whether parsing `body` reaches a part whose data would end before its
    /// headers do (a boundary right after the headers' blank line), where the
    /// data cannot be sliced; `parse` must not be called on such a body.
    pub fn parse_would_panic(&self, body: &[u8]) -> (r: bool)
        ensures
            r == (parse_body_parts(body@, self@.delimiter, self@.config) is Panics),
    {
        self.parse_outcome(body).is_none()
    }

    /// The outcome of parsing a complete body; `None` where the part data
    /// cannot be sliced.
    fn parse_outcome(&self, body: &[u8]) -> (r: Option<Result<Vec<Part>, MultipartError>>)
        ensures
            match parse_body_parts(body@, self@.delimiter, self@.config) {
                PartsOutcome::Parsed(ps) => (r matches Some(Ok(v)) && parts_view(v@) == ps),
                PartsOutcome::Fail(e) => r == Some(Err::<Vec<Part>, MultipartError>(e)),
                PartsOutcome::Panics => r is None,
            },
    {
        let ghost goal = parse_body_parts(body@, self@.delimiter, self@.config);
        let mut parts: Vec<Part> = Vec::new();
        let mut total: usize = 0;
        let mut pos = match self.find_boundary_from(body, 0) {
            Ok(p) => p,
            Err(e) => {
                return Some(Err(e));
            },
        };
        proof {
            lemma_boundary_scan_bounds(body@, self.boundary@, 0, false);
        }
        assert(parts_view(parts@) =~= Seq::<PartView>::empty());
        assert forall|s: Seq<PartView>| Seq::<PartView>::empty() + s == s by {
            assert(Seq::<PartView>::empty() + s =~= s);
        }
        let body_len = body.len();
        assert(boundary_scan(body@, self.boundary@, 0, false) == Some(pos as int));
        assert(self@.delimiter == self.boundary@);
        assert(goal == parse_parts_from(body@, self.boundary@, self.config@, pos as int, 0, 0));
        assert(pos + self.boundary@.len() + 2 <= body@.len());
        loop
            invariant
                pos + self.boundary@.len() + 2 <= body@.len(),
                body_len == body@.len(),
                total <= pos,
                parts@.len() <= pos,
                goal == parse_body_parts(body@, self@.delimiter, self@.config),
                goal == (match parse_parts_from(body@, self.boundary@, self.config@, pos as int, parts@.len() as int, total as int) {
                    PartsOutcome::Parsed(rest) => PartsOutcome::Parsed(parts_view(parts@) + rest),
                    other => other,
                }),
            decreases body@.len() - pos,
        {
            let ghost before = parts_view(parts@);
            let be = pos + self.boundary.len();
            if be + 2 <= body.len() && body[be] == 45u8 && body[be + 1] == 45u8 {
                assert(before + Seq::<PartView>::empty() == before);
                return Some(Ok(parts));
            }
            if parts.len() >= self.config.max_fields {
                return Some(Err(MultipartError::TooManyFields { count: parts.len() + 1, max: self.config.max_fields }));
            }
            if be + 2 > body.len() {
                return Some(Err(MultipartError::UnexpectedEof));
            }
            if !(body[be] == 13u8 && body[be + 1] == 10u8) {
                return Some(Err(MultipartError::InvalidFormat { detail: "expected CRLF after boundary" }));
            }
            proof {
                lemma_headers_from_bounds(body@, be + 2, Seq::empty());
            }
            let (headers, he) = match self.parse_part_headers(body, be + 2) {
                Ok(v) => v,
                Err(e) => {
                    return Some(Err(e));
                },
            };
            let cd = match header_get(&headers, "content-disposition") {
                Some(v) => v,
                None => {
                    return Some(Err(MultipartError::MissingContentDisposition));
                },
            };
            let (name, filename) = match parse_content_disposition(cd.as_str()) {
                Ok(v) => v,
                Err(e) => {
                    return Some(Err(e));
                },
            };
            let content_type = header_get(&headers, "content-type");
            let de = match self.find_boundary_from(body, he) {
                Ok(p) => p,
                Err(e) => {
                    return Some(Err(e));
                },
            };
            proof {
                lemma_boundary_scan_bounds(body@, self.boundary@, he as int, false);
            }
            let data_end = if de >= 2 && body[de - 2] == 13u8 && body[de - 1] == 10u8 {
                de - 2
            } else {
                de
            };
            if data_end < he {
                return None;
            }
            let data = copy_range(body, he, data_end);
            if filename.is_some() && data.len() > self.config.max_file_size {
                return Some(Err(MultipartError::FileTooLarge { size: data.len(), max: self.config.max_file_size }));
            }
            total = total + data.len();
            if total > self.config.max_total_size {
                return Some(Err(MultipartError::TotalTooLarge { size: total, max: self.config.max_total_size }));
            }
            let part = Part::new(name, filename, content_type, data, headers);
            parts.push(part);
            assert(parts_view(parts@) =~= before.push(part@));
            proof {
                let r = parse_parts_from(body@, self.boundary@, self.config@, de as int, parts@.len() as int, total as int);
                match r {
                    PartsOutcome::Parsed(rest) => {
                        assert(before + (seq![part@] + rest) =~= parts_view(parts@) + rest);
                    },
                    _ => {},
                }
            }
            pos = de;
        }
    }
}

/// Inserts a header, replacing the value of an entry with the same name.
pub(crate) fn insert_header(headers: &mut Vec<(String, String)>, k: String, v: String)
    ensures
        headers_view(final(headers)@) == header_insert(headers_view(old(headers)@), k@, v@),
{
    let ghost kv = (k@, v@);
    let mut i: usize = 0;
    while i < headers.len()
        invariant
            i <= headers.len(),
            headers@ == old(headers)@,
            kv == (k@, v@),
            forall|j: int| 0 <= j < i ==> (#[trigger] headers@[j]).0@ != k@,
        decreases headers.len() - i,
    {
        let ghost old_hv = headers_view(headers@);
        assert(old_hv[i as int] == (headers@[i as int].0@, headers@[i as int].1@));
        if crate::text::str_eq(headers[i].0.as_str(), k.as_str()) {
            assert(headers@[i as int].0@ == k@);
            assert(old_hv[i as int].0 == kv.0);
            headers.set(i, (k, v));
            proof {
                lemma_header_insert_at(old_hv, i as int, kv);
                assert(headers_view(headers@) =~= old_hv.update(i as int, kv));
            }
            return;
        }
        i += 1;
    }
    let ghost old_hv = headers_view(headers@);
    assert forall|j: int| 0 <= j < old_hv.len() implies (#[trigger] old_hv[j]).0 != kv.0 by {
        assert(old_hv[j] == (headers@[j].0@, headers@[j].1@));
    }
    headers.push((k, v));
    proof {
        lemma_header_insert_absent(old_hv, kv);
        assert(headers_view(headers@) =~= old_hv.push(kv));
    }
}

proof fn lemma_header_insert_at(hs: Seq<(Seq<char>, Seq<char>)>, i: int, kv: (Seq<char>, Seq<char>))
    requires
        0 <= i < hs.len(),
        hs[i].0 == kv.0,
        forall|j: int| 0 <= j < i ==> (#[trigger] hs[j]).0 != kv.0,
    ensures
        header_insert(hs, kv.0, kv.1) == hs.update(i, kv),
    decreases hs.len(),
{
    if i > 0 {
        lemma_header_insert_at(hs.drop_first(), i - 1, kv);
        assert forall|j: int| 0 <= j < i - 1 implies (#[trigger] hs.drop_first()[j]).0 != kv.0 by {
            assert(hs.drop_first()[j] == hs[j + 1]);
        }
        assert(seq![hs[0]] + hs.drop_first().update(i - 1, kv) =~= hs.update(i, kv));
    } else {
        assert(seq![kv] + hs.drop_first() =~= hs.update(0, kv));
    }
}

proof fn lemma_header_insert_absent(hs: Seq<(Seq<char>, Seq<char>)>, kv: (Seq<char>, Seq<char>))
    requires
        forall|j: int| 0 <= j < hs.len() ==> (#[trigger] hs[j]).0 != kv.0,
    ensures
        header_insert(hs, kv.0, kv.1) == hs.push(kv),
    decreases hs.len(),
{
    if hs.len() > 0 {
        assert forall|j: int| 0 <= j < hs.drop_first().len() implies (#[trigger] hs.drop_first()[j]).0 != kv.0 by {
            assert(hs.drop_first()[j] == hs[j + 1]);
        }
        lemma_header_insert_absent(hs.drop_first(), kv);
        assert(seq![hs[0]] + hs.drop_first().push(kv) =~= hs.push(kv));
    } else {
        assert(seq![kv] =~= hs.push(kv));
    }
}

/// The value of header `k`.
pub(crate) fn header_get(headers: &Vec<(String, String)>, k: &str) -> (r: Option<String>)
    ensures
        opt_string_view(r) == first_value(headers_view(headers@), k@),
{
    let mut i: usize = 0;
    assert(headers_view(headers@).skip(0) == headers_view(headers@));
    while i < headers.len()
        invariant
            i <= headers.len(),
            first_value(headers_view(headers@), k@) == first_value(headers_view(headers@).skip(i as int), k@),
        decreases headers.len() - i,
    {
        let ghost rest = headers_view(headers@).skip(i as int);
        assert(rest[0] == (headers@[i as int].0@, headers@[i as int].1@));
        assert(rest.drop_first() == headers_view(headers@).skip(i + 1));
        if crate::text::str_eq(headers[i].0.as_str(), k) {
            return Some(headers[i].1.clone());
        }
        i += 1;
    }
    None
}


// ============================================================================
// Incremental parsing
// ============================================================================

/// A part whose content is still arriving.
#[derive(Debug)]
struct StreamingPartState {
    name: String,
    filename: Option<String>,
    content_type: Option<String>,
    headers: Vec<(String, String)>,
    size: usize,
    data: Vec<u8>,
}

/// The mathematical form of a part in progress.
pub struct PartProgress {
    pub name: Seq<char>,
    pub filename: Option<Seq<char>>,
    pub content_type: Option<Seq<char>>,
    pub headers: Seq<(Seq<char>, Seq<char>)>,
    pub size: usize,
    pub data: Seq<u8>,
}

impl StreamingPartState {
    spec fn view_of(&self) -> PartProgress {
        PartProgress {
            name: self.name@,
            filename: opt_string_view(self.filename),
            content_type: opt_string_view(self.content_type),
            headers: headers_view(self.headers@),
            size: self.size,
            data: self.data@,
        }
    }
}

/// Incremental parser state for a streamed multipart body.
#[derive(Debug)]
pub struct MultipartStreamState {
    started: bool,
    done: bool,
    part_count: usize,
    total_size: usize,
    current_part: Option<StreamingPartState>,
}

/// The mathematical form of a [`MultipartStreamState`].
pub struct StreamView {
    pub started: bool,
    pub done: bool,
    pub part_count: usize,
    pub total_size: usize,
    pub current: Option<PartProgress>,
}

impl View for MultipartStreamState {
    type V = StreamView;

    closed spec fn view(&self) -> StreamView {
        StreamView {
            started: self.started,
            done: self.done,
            part_count: self.part_count,
            total_size: self.total_size,
            current: match self.current_part {
                Some(p) => Some(p.view_of()),
                None => None,
            },
        }
    }
}

impl Default for MultipartStreamState {
    fn default() -> (s: Self)
        ensures
            s@ == (StreamView { started: false, done: false, part_count: 0, total_size: 0, current: None }),
    {
        MultipartStreamState { started: false, done: false, part_count: 0, total_size: 0, current_part: None }
    }
}

impl MultipartStreamState {
    /// A state before any byte of the body.
    pub fn new() -> (s: Self)
        ensures
            s@ == (StreamView { started: false, done: false, part_count: 0, total_size: 0, current: None }),
    {
        Self::default()
    }

    /// The closing boundary has been parsed.
    pub fn is_done(&self) -> (r: bool)
        ensures
            r == self@.done,
    {
        self.done
    }
}

pub open spec fn sat_add(a: int, b: int) -> int {
    if a + b > usize::MAX { usize::MAX as int } else { a + b }
}

/// Adds bytes to a part in progress, enforcing the file and total limits;
/// the new part and the new total.
pub open spec fn append_spec(cp: PartProgress, chunk: Seq<u8>, cfg: MultipartConfigView, total: usize) -> Result<
    (PartProgress, usize),
    MultipartError,
> {
    if chunk.len() == 0 {
        Ok((cp, total))
    } else {
        let next_size = sat_add(cp.size as int, chunk.len() as int);
        let next_total = sat_add(total as int, chunk.len() as int);
        if cp.filename is Some && next_size > cfg.max_file_size {
            Err(MultipartError::FileTooLarge { size: next_size as usize, max: cfg.max_file_size })
        } else if next_total > cfg.max_total_size {
            Err(MultipartError::TotalTooLarge { size: next_total as usize, max: cfg.max_total_size })
        } else {
            Ok((PartProgress { size: next_size as usize, data: cp.data + chunk, ..cp }, next_total as usize))
        }
    }
}

/// Adding bytes to a part in progress: a file that would outgrow
/// `max_file_size` is refused first, then a total that would outgrow
/// `max_total_size`; otherwise the bytes are appended and the part's size
/// and the total both grow by their number.
pub proof fn lemma_append_rules(cp: PartProgress, chunk: Seq<u8>, cfg: MultipartConfigView, total: usize)
    requires
        chunk.len() > 0,
        cp.size + chunk.len() <= usize::MAX,
        total + chunk.len() <= usize::MAX,
    ensures
        cp.filename is Some && cp.size + chunk.len() > cfg.max_file_size ==> append_spec(cp, chunk, cfg, total) == Err::<
            (PartProgress, usize),
            MultipartError,
        >(MultipartError::FileTooLarge { size: (cp.size + chunk.len()) as usize, max: cfg.max_file_size }),
        !(cp.filename is Some && cp.size + chunk.len() > cfg.max_file_size) && total + chunk.len() > cfg.max_total_size
            ==> append_spec(cp, chunk, cfg, total) == Err::<(PartProgress, usize), MultipartError>(
            MultipartError::TotalTooLarge { size: (total + chunk.len()) as usize, max: cfg.max_total_size },
        ),
        !(cp.filename is Some && cp.size + chunk.len() > cfg.max_file_size) && total + chunk.len() <= cfg.max_total_size
            ==> append_spec(cp, chunk, cfg, total) == Ok::<(PartProgress, usize), MultipartError>(
            (PartProgress { size: (cp.size + chunk.len()) as usize, data: cp.data + chunk, ..cp }, (total + chunk.len()) as usize),
        ),
{
}

/// The part a finished part in progress becomes.
pub open spec fn finished_part(cp: PartProgress) -> PartView {
    PartView {
        name: cp.name,
        filename: cp.filename,
        content_type: cp.content_type,
        data: cp.data,
        headers: cp.headers,
        spooled_path: None,
        spooled_len: Some(cp.data.len() as usize),
    }
}

/// One round of incremental parsing.
pub enum IncrStep {
    /// Stop with this buffer, state and result.
    Return(Seq<u8>, StreamView, Result<Seq<PartView>, MultipartError>),
    /// Go on with this buffer and state, having finished these parts.
    Continue(Seq<u8>, StreamView, Seq<PartView>),
}

pub open spec fn keep_len(b: Seq<u8>) -> int {
    sat_add(b.len() as int, 4)
}

pub open spec fn eof_result(eof: bool) -> Result<Seq<PartView>, MultipartError> {
    if eof { Err(MultipartError::UnexpectedEof) } else { Ok(Seq::empty()) }
}

/// A new part starts at the front of `buf` (which begins with the delimiter).
pub open spec fn incr_begin_part(buf: Seq<u8>, st: StreamView, b: Seq<u8>, eof: bool) -> IncrStep {
    let be = b.len() as int;
    if be + 2 > buf.len() {
        IncrStep::Return(buf, st, eof_result(eof))
    } else if dashes_at(buf, be) {
        let consumed = if crlf_at(buf, be + 2) { be + 4 } else { be + 2 };
        IncrStep::Return(buf.skip(consumed), StreamView { done: true, ..st }, Ok(Seq::empty()))
    } else if !crlf_at(buf, be) {
        IncrStep::Return(buf, st, Err(MultipartError::InvalidFormat { detail: "expected CRLF after boundary" }))
    } else {
        match headers_from(buf, be + 2, Seq::empty()) {
            Err(MultipartError::UnexpectedEof) => IncrStep::Return(buf, st, eof_result(eof)),
            Err(e) => IncrStep::Return(buf, st, Err(e)),
            Ok((hs, ds)) => match first_value(hs, "content-disposition"@) {
                None => IncrStep::Return(buf, st, Err(MultipartError::MissingContentDisposition)),
                Some(cd) => match disposition_of(cd) {
                    Err(e) => IncrStep::Return(buf, st, Err(e)),
                    Ok((name, filename)) => IncrStep::Continue(
                        buf.skip(ds),
                        StreamView {
                            current: Some(PartProgress {
                                name,
                                filename,
                                content_type: first_value(hs, "content-type"@),
                                headers: hs,
                                size: 0,
                                data: Seq::empty(),
                            }),
                            ..st
                        },
                        Seq::empty(),
                    ),
                },
            },
        }
    }
}

/// The content of the current part continues at the front of `buf`.
pub open spec fn incr_part_data(buf: Seq<u8>, st: StreamView, cp: PartProgress, b: Seq<u8>, cfg: MultipartConfigView, eof: bool) -> IncrStep {
    match boundary_scan(buf, b, 0, true) {
        Some(de) => {
            let we = if de >= 2 && crlf_at(buf, de - 2) { de - 2 } else { de };
            let ap = if we > 0 { append_spec(cp, buf.take(we), cfg, st.total_size) } else { Ok((cp, st.total_size)) };
            match ap {
                Err(e) => IncrStep::Return(buf, st, Err(e)),
                Ok((cp2, t2)) => {
                    let pc = sat_add(st.part_count as int, 1) as usize;
                    if pc > cfg.max_fields {
                        IncrStep::Return(
                            buf,
                            StreamView { current: Some(cp2), total_size: t2, part_count: pc, ..st },
                            Err(MultipartError::TooManyFields { count: pc, max: cfg.max_fields }),
                        )
                    } else {
                        IncrStep::Continue(
                            buf.skip(de),
                            StreamView { current: None, total_size: t2, part_count: pc, ..st },
                            seq![finished_part(cp2)],
                        )
                    }
                },
            }
        },
        None => if eof {
            IncrStep::Return(buf, st, Err(MultipartError::UnexpectedEof))
        } else if buf.len() > keep_len(b) {
            let flush = buf.len() - keep_len(b);
            match append_spec(cp, buf.take(flush), cfg, st.total_size) {
                Err(e) => IncrStep::Return(buf, st, Err(e)),
                Ok((cp2, t2)) => IncrStep::Return(
                    buf.skip(flush),
                    StreamView { current: Some(cp2), total_size: t2, ..st },
                    Ok(Seq::empty()),
                ),
            }
        } else {
            IncrStep::Return(buf, st, Ok(Seq::empty()))
        },
    }
}

/// One round of incremental parsing from `buf` in state `st`.
pub open spec fn incr_step(buf: Seq<u8>, st: StreamView, b: Seq<u8>, cfg: MultipartConfigView, eof: bool) -> IncrStep {
    if st.done {
        IncrStep::Return(buf, st, Ok(Seq::empty()))
    } else if !st.started && boundary_scan(buf, b, 0, false) is None {
        if eof {
            IncrStep::Return(buf, st, Err(MultipartError::UnexpectedEof))
        } else if buf.len() > keep_len(b) {
            IncrStep::Return(buf.skip(buf.len() - keep_len(b)), st, Ok(Seq::empty()))
        } else {
            IncrStep::Return(buf, st, Ok(Seq::empty()))
        }
    } else {
        let buf1 = if !st.started { buf.skip(boundary_scan(buf, b, 0, false).unwrap()) } else { buf };
        let st1 = StreamView { started: true, ..st };
        match st1.current {
            None => {
                if !bytes_at(buf1, b, 0) {
                    match boundary_scan(buf1, b, 0, false) {
                        None => IncrStep::Return(buf1, st1, eof_result(eof)),
                        Some(p) => incr_begin_part(buf1.skip(p), st1, b, eof),
                    }
                } else {
                    incr_begin_part(buf1, st1, b, eof)
                }
            },
            Some(cp) => incr_part_data(buf1, st1, cp, b, cfg, eof),
        }
    }
}

/// Incremental parsing until it stops: the final buffer, state and result.
pub open spec fn incr_run(buf: Seq<u8>, st: StreamView, b: Seq<u8>, cfg: MultipartConfigView, eof: bool) -> (
    Seq<u8>,
    StreamView,
    Result<Seq<PartView>, MultipartError>,
)
    decreases buf.len(),
{
    match incr_step(buf, st, b, cfg, eof) {
        IncrStep::Return(b2, s2, r) => (b2, s2, r),
        IncrStep::Continue(b2, s2, ps) => if b2.len() < buf.len() {
            let (b3, s3, r) = incr_run(b2, s2, b, cfg, eof);
            (b3, s3, match r {
                Ok(rest) => Ok(ps + rest),
                Err(e) => Err(e),
            })
        } else {
            (b2, s2, Err(MultipartError::UnexpectedEof))
        },
    }
}

/// With a part open and no complete delimiter in the buffer, a call that
/// succeeds returns no part and keeps at most the delimiter's length plus
/// four bytes, where a delimiter may be starting; every byte before those is
/// appended to the open part and counted in the total.
pub proof fn lemma_incremental_keeps_tail(buf: Seq<u8>, st: StreamView, b: Seq<u8>, cfg: MultipartConfigView)
    requires
        st.started,
        !st.done,
        st.current is Some,
        boundary_scan(buf, b, 0, true) is None,
    ensures
        ({
            let (b2, s2, r) = incr_run(buf, st, b, cfg, false);
            let flushed = buf.take(buf.len() - b2.len());
            let cp = st.current.unwrap();
            r is Ok ==> {
                &&& r == Ok::<Seq<PartView>, MultipartError>(Seq::empty())
                &&& b2.len() <= b.len() + 4
                &&& buf == flushed + b2
                &&& s2.current matches Some(cp2) && cp2.data == cp.data + flushed && cp2.name == cp.name
                    && cp2.filename == cp.filename && cp2.headers == cp.headers
                &&& s2.total_size == sat_add(st.total_size as int, flushed.len() as int)
                &&& s2.part_count == st.part_count
                &&& s2.started && !s2.done
            }
        }),
{
    let cp = st.current.unwrap();
    assert((StreamView { started: true, ..st }) == st);
    assert(incr_step(buf, st, b, cfg, false) == incr_part_data(buf, st, cp, b, cfg, false));
    let (b2, s2, r) = incr_run(buf, st, b, cfg, false);
    if buf.len() > keep_len(b) {
        let flush = buf.len() - keep_len(b);
        let chunk = buf.take(flush);
        assert(chunk + buf.skip(flush) =~= buf);
        match append_spec(cp, chunk, cfg, st.total_size) {
            Ok((cp2, t2)) => {
                assert(incr_part_data(buf, st, cp, b, cfg, false) == IncrStep::Return(
                    buf.skip(flush),
                    StreamView { current: Some(cp2), total_size: t2, ..st },
                    Ok(Seq::empty()),
                ));
                assert(b2 == buf.skip(flush));
                assert(buf.take(buf.len() - b2.len()) == chunk);
                assert(cp2.data == cp.data + chunk);
            },
            Err(_) => {},
        }
    } else {
        assert(incr_part_data(buf, st, cp, b, cfg, false) == IncrStep::Return(buf, st, Ok(Seq::empty())));
        assert(b2 == buf);
        assert(buf.take(0) =~= Seq::<u8>::empty());
        assert(cp.data + Seq::<u8>::empty() =~= cp.data);
        assert(Seq::<u8>::empty() + buf =~= buf);
    }
}

/// A part as both parsers give it, without where its bytes were spooled.
pub open spec fn unspooled(p: PartView) -> PartView {
    PartView { spooled_path: None, spooled_len: None, ..p }
}

proof fn lemma_skip_index(d: Seq<u8>, s: int, i: int)
    requires
        0 <= s <= d.len(),
        0 <= i < d.len() - s,
    ensures
        d.skip(s)[i] == d[s + i],
{
}

proof fn lemma_bytes_at_shift(d: Seq<u8>, b: Seq<u8>, s: int, i: int)
    requires
        0 <= s <= d.len(),
        0 <= i,
    ensures
        bytes_at(d.skip(s), b, i) == bytes_at(d, b, s + i),
        crlf_at(d.skip(s), i) == crlf_at(d, s + i),
        dashes_at(d.skip(s), i) == dashes_at(d, s + i),
{
    if i + b.len() <= d.len() - s {
        assert(d.skip(s).subrange(i, i + b.len()) =~= d.subrange(s + i, s + i + b.len()));
    }
}

/// Scanning a suffix from its third byte on finds the delimiter scanning the
/// whole finds, shifted.
proof fn lemma_scan_shift(d: Seq<u8>, b: Seq<u8>, s: int, i: int, ip1: bool, ip2: bool)
    requires
        0 <= s <= d.len(),
        i >= 2,
    ensures
        boundary_scan(d.skip(s), b, i, ip1) == (match boundary_scan(d, b, s + i, ip2) {
            Some(j) => Some(j - s),
            None => None::<int>,
        }),
    decreases d.len() - s - i,
{
    lemma_bytes_at_shift(d, b, s, i);
    lemma_bytes_at_shift(d, b, s, i - 2);
    lemma_bytes_at_shift(d, b, s, i + b.len());
    if i >= d.len() - s || i + b.len() > d.len() - s {
    } else {
        lemma_scan_shift(d, b, s, i + 1, ip1, ip2);
    }
}

proof fn lemma_headers_shift(d: Seq<u8>, s: int, i: int, hs: Seq<(Seq<char>, Seq<char>)>)
    requires
        0 <= s <= d.len(),
        0 <= i,
    ensures
        headers_from(d.skip(s), i, hs) == (match headers_from(d, s + i, hs) {
            Ok((h, e)) => Ok((h, e - s)),
            Err(x) => Err::<(Seq<(Seq<char>, Seq<char>)>, int), MultipartError>(x),
        }),
    decreases d.len() - s - i,
{
    let ds = d.skip(s);
    assert(ds == d.subrange(s, d.len() as int));
    lemma_find_crlf_shift_from(d, s, i);
    lemma_find_crlf_bounds(d, s + i);
    match find_crlf(d, s + i) {
        None => {},
        Some(e) => {
            if s + i <= e && e + 2 <= d.len() && e != s + i {
                let line = d.subrange(s + i, e);
                assert(ds.subrange(i, e - s) =~= line);
                if valid_utf8(line) {
                    let cs = decode_utf8(line);
                    match find_char(cs, ':', 0) {
                        None => lemma_headers_shift(d, s, e + 2 - s, hs),
                        Some(k) => lemma_headers_shift(
                            d,
                            s,
                            e + 2 - s,
                            header_insert(hs, lower_all(trim(cs.take(k))), trim(cs.skip(k + 1))),
                        ),
                    }
                }
            }
        },
    }
}


/// The header block, the end of the part's data and the delimiter after it,
/// for a part that starts at the delimiter at `pos`.
spec fn part_headers(d: Seq<u8>, b: Seq<u8>, pos: int) -> (Seq<(Seq<char>, Seq<char>)>, int) {
    headers_from(d, pos + b.len() + 2, Seq::empty())->Ok_0
}

spec fn part_delim(d: Seq<u8>, b: Seq<u8>, pos: int) -> int {
    boundary_scan(d, b, part_headers(d, b, pos).1, false)->Some_0
}

spec fn part_name(d: Seq<u8>, b: Seq<u8>, pos: int) -> (Seq<char>, Option<Seq<char>>) {
    disposition_of(first_value(part_headers(d, b, pos).0, "content-disposition"@)->Some_0)->Ok_0
}

spec fn part_data(d: Seq<u8>, b: Seq<u8>, pos: int) -> Seq<u8> {
    d.subrange(part_headers(d, b, pos).1, part_delim(d, b, pos) - 2)
}

/// What a part that parses at the delimiter at `pos` is made of.
proof fn lemma_part_facts(d: Seq<u8>, b: Seq<u8>, cfg: MultipartConfigView, pos: int, count: int, total: int)
    requires
        parse_parts_from(d, b, cfg, pos, count, total) is Parsed,
        !(pos + b.len() + 2 <= d.len() && dashes_at(d, pos + b.len())),
        0 <= pos,
    ensures
        ({
            let (hs, he) = part_headers(d, b, pos);
            let de = part_delim(d, b, pos);
            let (name, filename) = part_name(d, b, pos);
            let data = part_data(d, b, pos);
            &&& count < cfg.max_fields
            &&& pos + b.len() + 2 <= d.len()
            &&& crlf_at(d, pos + b.len())
            &&& headers_from(d, pos + b.len() + 2, Seq::empty()) is Ok
            &&& first_value(hs, "content-disposition"@) is Some
            &&& disposition_of(first_value(hs, "content-disposition"@)->Some_0) is Ok
            &&& boundary_scan(d, b, he, false) is Some
            &&& pos < de <= d.len()
            &&& he <= de - 2
            &&& crlf_at(d, de - 2)
            &&& bytes_at(d, b, de)
            &&& !(filename is Some && data.len() > cfg.max_file_size)
            &&& total + data.len() <= cfg.max_total_size
            &&& parse_parts_from(d, b, cfg, de, count + 1, total + data.len()) is Parsed
            &&& parse_parts_from(d, b, cfg, pos, count, total)->Parsed_0 == seq![parsed_part(name, filename, hs, data)]
                + parse_parts_from(d, b, cfg, de, count + 1, total + data.len())->Parsed_0
        }),
{
    let be = pos + b.len();
    lemma_headers_from_bounds(d, be + 2, Seq::empty());
    let (hs, he) = part_headers(d, b, pos);
    lemma_boundary_scan_bounds(d, b, he, false);
    let de = part_delim(d, b, pos);
    let (name, filename) = part_name(d, b, pos);
    let data = part_data(d, b, pos);
    assert(he > 0);
    assert(crlf_at(d, de - 2));
    let t2 = total + data.len();
    assert(parse_parts_from(d, b, cfg, pos, count, total) == match parse_parts_from(d, b, cfg, de, count + 1, t2) {
        PartsOutcome::Parsed(rest) => PartsOutcome::Parsed(seq![parsed_part(name, filename, hs, data)] + rest),
        other => other,
    });
}

/// Beginning a part incrementally: the headers are read as the whole parse
/// reads them, and the part is opened.
proof fn lemma_incr_begin(d: Seq<u8>, b: Seq<u8>, cfg: MultipartConfigView, pos: int, count: int, total: int, st: StreamView)
    requires
        parse_parts_from(d, b, cfg, pos, count, total) is Parsed,
        !(pos + b.len() + 2 <= d.len() && dashes_at(d, pos + b.len())),
        bytes_at(d, b, pos),
        0 <= pos,
        st.started,
        !st.done,
        st.current is None,
    ensures
        ({
            let (hs, he) = part_headers(d, b, pos);
            let (name, filename) = part_name(d, b, pos);
            let cp0 = PartProgress {
                name,
                filename,
                content_type: first_value(hs, "content-type"@),
                headers: hs,
                size: 0,
                data: Seq::empty(),
            };
            incr_step(d.skip(pos), st, b, cfg, true) == IncrStep::Continue(
                d.skip(he),
                StreamView { current: Some(cp0), ..st },
                Seq::empty(),
            )
        }),
{
    let buf = d.skip(pos);
    let bl = b.len() as int;
    lemma_part_facts(d, b, cfg, pos, count, total);
    lemma_bytes_at_shift(d, b, pos, 0);
    lemma_bytes_at_shift(d, b, pos, bl);
    lemma_headers_from_bounds(d, pos + bl + 2, Seq::empty());
    lemma_headers_shift(d, pos, bl + 2, Seq::empty());
    assert((StreamView { started: true, ..st }) == st);
    let he = part_headers(d, b, pos).1;
    assert(buf.skip(he - pos) =~= d.skip(he));
}

/// The delimiter that ends a part, found from the start of its data.
proof fn lemma_data_scan(d: Seq<u8>, b: Seq<u8>, he: int, de: int)
    requires
        2 <= he <= de - 2,
        crlf_at(d, he - 2),
        boundary_scan(d, b, he, false) == Some(de),
        de <= d.len(),
    ensures
        boundary_scan(d.skip(he), b, 0, true) == Some(de - he),
{
    let ds = d.skip(he);
    lemma_boundary_scan_bounds(d, b, he, false);
    assert(boundary_scan(d, b, he, false) == boundary_scan(d, b, he + 1, false));
    assert(!crlf_at(d, he - 1));
    assert(boundary_scan(d, b, he + 1, false) == boundary_scan(d, b, he + 2, false));
    lemma_scan_shift(d, b, he, 2, true, false);
    assert(boundary_scan(ds, b, 0, true) == boundary_scan(ds, b, 1, true));
    assert(boundary_scan(ds, b, 1, true) == boundary_scan(ds, b, 2, true));
}

/// The parts after the first map as the first parts after it do.
proof fn lemma_unspooled_cons(fp: PartView, qs: Seq<PartView>, pp: PartView, rest: Seq<PartView>)
    requires
        unspooled(fp) == pp,
        qs.map_values(|p: PartView| unspooled(p)) == rest,
    ensures
        (seq![fp] + qs).map_values(|p: PartView| unspooled(p)) == seq![pp] + rest,
{
    let f = |p: PartView| unspooled(p);
    assert((seq![fp] + qs).map_values(f) =~= seq![pp] + rest) by {
        assert forall|i: int| 0 <= i < qs.len() + 1 implies (seq![fp] + qs).map_values(f)[i] == (seq![pp] + rest)[i] by {
            if i > 0 {
                assert(qs.map_values(f)[i - 1] == rest[i - 1]);
            }
        }
    }
}

/// Reading a part's data incrementally with the whole rest at hand: the data
/// the whole parse gives, the same limits checked, and the part finished.
#[verifier::rlimit(40)]
proof fn lemma_incr_data(d: Seq<u8>, b: Seq<u8>, cfg: MultipartConfigView, pos: int, count: int, total: int, st: StreamView)
    requires
        parse_parts_from(d, b, cfg, pos, count, total) is Parsed,
        !(pos + b.len() + 2 <= d.len() && dashes_at(d, pos + b.len())),
        0 <= pos,
        st.started,
        !st.done,
        st.current is Some,
        st.current->Some_0.size == 0,
        st.current->Some_0.data == Seq::<u8>::empty(),
        st.current->Some_0.filename == part_name(d, b, pos).1,
        st.part_count == count,
        st.total_size == total,
        0 <= count,
        0 <= total <= cfg.max_total_size,
    ensures
        ({
            let he = part_headers(d, b, pos).1;
            let de = part_delim(d, b, pos);
            let data = part_data(d, b, pos);
            let cp0 = st.current->Some_0;
            let cp2 = PartProgress { size: data.len() as usize, data, ..cp0 };
            incr_step(d.skip(he), st, b, cfg, true) == IncrStep::Continue(
                d.skip(de),
                StreamView {
                    current: None,
                    total_size: (total + data.len()) as usize,
                    part_count: (count + 1) as usize,
                    ..st
                },
                seq![finished_part(cp2)],
            )
        }),
{
    lemma_part_facts(d, b, cfg, pos, count, total);
    lemma_headers_from_bounds(d, pos + b.len() + 2, Seq::empty());
    let he = part_headers(d, b, pos).1;
    let de = part_delim(d, b, pos);
    let data = part_data(d, b, pos);
    let cp0 = st.current->Some_0;
    let ds = d.skip(he);
    assert((StreamView { started: true, ..st }) == st);
    assert(incr_step(ds, st, b, cfg, true) == incr_part_data(ds, st, cp0, b, cfg, true));
    lemma_data_scan(d, b, he, de);
    let dp = de - he;
    lemma_bytes_at_shift(d, b, he, dp - 2);
    let we = dp - 2;
    assert(ds.take(we) =~= data);
    let cp2 = PartProgress { size: data.len() as usize, data, ..cp0 };
    if we > 0 {
        assert(Seq::<u8>::empty() + data =~= data);
        assert(append_spec(cp0, ds.take(we), cfg, total as usize) == Ok::<(PartProgress, usize), MultipartError>(
            (cp2, (total + data.len()) as usize)));
    } else {
        assert(data =~= Seq::<u8>::empty());
        assert(cp2 == cp0);
    }
    assert(ds.skip(dp) =~= d.skip(de));
}

/// Parsing incrementally from a delimiter at `pos`, with the rest of the
/// body at hand and the input at its end, gives the parts that parsing the
/// whole gives from there, and finishes.
#[verifier::rlimit(40)]
proof fn lemma_incr_whole_from(
    d: Seq<u8>,
    b: Seq<u8>,
    cfg: MultipartConfigView,
    pos: int,
    count: int,
    total: int,
    st: StreamView,
)
    requires
        parse_parts_from(d, b, cfg, pos, count, total) is Parsed,
        bytes_at(d, b, pos),
        st.started,
        !st.done,
        st.current is None,
        st.part_count == count,
        st.total_size == total,
        0 <= count,
        0 <= total <= cfg.max_total_size,
    ensures
        ({
            let (b3, s3, r) = incr_run(d.skip(pos), st, b, cfg, true);
            &&& s3.done
            &&& r matches Ok(qs) && parse_parts_from(d, b, cfg, pos, count, total) matches PartsOutcome::Parsed(ps)
                && qs.map_values(|p: PartView| unspooled(p)) == ps
        }),
    decreases d.len() - pos,
{
    let buf = d.skip(pos);
    let bl = b.len() as int;
    if pos + bl + 2 <= d.len() && dashes_at(d, pos + bl) {
        lemma_bytes_at_shift(d, b, pos, 0);
        lemma_bytes_at_shift(d, b, pos, bl);
        assert((StreamView { started: true, ..st }) == st);
        assert(incr_step(buf, st, b, cfg, true) == incr_begin_part(buf, st, b, true));
        assert(Seq::<PartView>::empty().map_values(|p: PartView| unspooled(p)) =~= Seq::<PartView>::empty());
        return;
    }
    lemma_part_facts(d, b, cfg, pos, count, total);
    lemma_headers_from_bounds(d, pos + bl + 2, Seq::empty());
    let (hs, he) = part_headers(d, b, pos);
    let (name, filename) = part_name(d, b, pos);
    let de = part_delim(d, b, pos);
    let data = part_data(d, b, pos);
    let t2 = total + data.len();
    let rest = parse_parts_from(d, b, cfg, de, count + 1, t2)->Parsed_0;
    let cp0 = PartProgress {
        name,
        filename,
        content_type: first_value(hs, "content-type"@),
        headers: hs,
        size: 0,
        data: Seq::empty(),
    };
    let st1 = StreamView { current: Some(cp0), ..st };
    lemma_incr_begin(d, b, cfg, pos, count, total, st);
    lemma_incr_data(d, b, cfg, pos, count, total, st1);
    let cp2 = PartProgress { size: data.len() as usize, data, ..cp0 };
    let st2 = StreamView { current: None, total_size: t2 as usize, part_count: (count + 1) as usize, ..st1 };
    lemma_incr_whole_from(d, b, cfg, de, count + 1, t2, st2);
    let (b3, s3, r) = incr_run(d.skip(de), st2, b, cfg, true);
    let qs = r->Ok_0;
    lemma_unspooled_cons(finished_part(cp2), qs, parsed_part(name, filename, hs, data), rest);
    let ds = d.skip(he);
    assert(incr_run(ds, st1, b, cfg, true) == (b3, s3, Ok::<Seq<PartView>, MultipartError>(seq![finished_part(cp2)] + qs)));
    assert(Seq::<PartView>::empty() + (seq![finished_part(cp2)] + qs) =~= seq![finished_part(cp2)] + qs);
}

// ----------------------------------------------------------------------------
// What part of the body has arrived
// ----------------------------------------------------------------------------

proof fn lemma_find_crlf_prefix(d: Seq<u8>, m: int, i: int)
    requires
        0 <= i,
        0 <= m <= d.len(),
    ensures
        find_crlf(d.take(m), i) == (match find_crlf(d, i) {
            Some(e) => if e + 2 <= m { Some(e) } else { None::<int> },
            None => None::<int>,
        }),
    decreases d.len() - i,
{
    lemma_find_crlf_bounds(d, i);
    if i + 1 < m {
        lemma_find_crlf_prefix(d, m, i + 1);
    }
}

/// A header block read from what has arrived: the whole block once it is
/// all there, `UnexpectedEof` before.
proof fn lemma_headers_prefix(d: Seq<u8>, m: int, i: int, hs: Seq<(Seq<char>, Seq<char>)>)
    requires
        0 <= i,
        0 <= m <= d.len(),
        headers_from(d, i, hs) is Ok,
    ensures
        headers_from(d.take(m), i, hs) == (if headers_from(d, i, hs)->Ok_0.1 <= m {
            headers_from(d, i, hs)
        } else {
            Err::<(Seq<(Seq<char>, Seq<char>)>, int), MultipartError>(MultipartError::UnexpectedEof)
        }),
    decreases d.len() - i,
{
    let p = d.take(m);
    lemma_find_crlf_prefix(d, m, i);
    lemma_find_crlf_bounds(d, i);
    let e = find_crlf(d, i)->Some_0;
    if e + 2 <= m && e != i {
        assert(p.subrange(i, e) =~= d.subrange(i, e));
        let line = d.subrange(i, e);
        let cs = decode_utf8(line);
        match find_char(cs, ':', 0) {
            None => {
                lemma_headers_prefix(d, m, e + 2, hs);
            },
            Some(k) => {
                lemma_headers_prefix(
                    d,
                    m,
                    e + 2,
                    header_insert(hs, lower_all(trim(cs.take(k))), trim(cs.skip(k + 1))),
                );
            },
        }
    } else if e + 2 > m && e != i {
        let line = d.subrange(i, e);
        let cs = decode_utf8(line);
        match find_char(cs, ':', 0) {
            None => {
                lemma_headers_from_bounds(d, e + 2, hs);
            },
            Some(k) => {
                lemma_headers_from_bounds(
                    d,
                    e + 2,
                    header_insert(hs, lower_all(trim(cs.take(k))), trim(cs.skip(k + 1))),
                );
            },
        }
    }
}

/// A delimiter scan over what has arrived: the delimiter the whole scan
/// finds once all of it and the two bytes after it are there, nothing before.
proof fn lemma_scan_prefix(d: Seq<u8>, b: Seq<u8>, m: int, i: int, ip: bool)
    requires
        0 <= i,
        0 <= m <= d.len(),
        boundary_scan(d, b, i, ip) is Some,
    ensures
        boundary_scan(d.take(m), b, i, ip) == (if boundary_scan(d, b, i, ip)->Some_0 + b.len() + 2 <= m {
            boundary_scan(d, b, i, ip)
        } else {
            None::<int>
        }),
    decreases d.len() - i,
{
    let p = d.take(m);
    let bl = b.len() as int;
    lemma_boundary_scan_bounds(d, b, i, ip);
    if !(i >= m || i + bl > m) {
        assert(p.subrange(i, i + bl) =~= d.subrange(i, i + bl));
        assert(bytes_at(p, b, i) == bytes_at(d, b, i));
        assert(crlf_at(p, i - 2) == crlf_at(d, i - 2));
        if !bytes_at(d, b, i) || ((ip || i != 0) && !(i >= 2 && crlf_at(d, i - 2))) {
            lemma_scan_prefix(d, b, m, i + 1, ip);
        } else if i + bl + 2 <= m {
            assert(crlf_at(p, i + bl) == crlf_at(d, i + bl));
            assert(dashes_at(p, i + bl) == dashes_at(d, i + bl));
            if !(crlf_at(d, i + bl) || dashes_at(d, i + bl)) {
                lemma_scan_prefix(d, b, m, i + 1, ip);
            }
        }
    }
}

/// A scan that finds `de` from `y` finds it from any later start up to it.
proof fn lemma_scan_from_later(d: Seq<u8>, b: Seq<u8>, y: int, x: int, de: int, ip: bool)
    requires
        y <= x <= de,
        boundary_scan(d, b, y, ip) == Some(de),
    ensures
        boundary_scan(d, b, x, ip) == Some(de),
    decreases x - y,
{
    if y < x {
        assert(boundary_scan(d, b, y, ip) == boundary_scan(d, b, y + 1, ip));
        lemma_scan_from_later(d, b, y + 1, x, de, ip);
    }
}

/// Scanning the arrived part of a part's data from byte `j` on: the end
/// delimiter once all of it and the two bytes after it are there.
proof fn lemma_part_scan(d: Seq<u8>, b: Seq<u8>, he: int, de: int, j: int, m: int)
    requires
        2 <= he <= j <= de - 2,
        crlf_at(d, he - 2),
        boundary_scan(d, b, he, false) == Some(de),
        j <= m <= d.len(),
    ensures
        boundary_scan(d.subrange(j, m), b, 0, true) == (if de + b.len() + 2 <= m { Some(de - j) } else { None::<int> }),
{
    let p = d.take(m);
    let s = d.subrange(j, m);
    assert(s =~= p.skip(j));
    lemma_boundary_scan_bounds(d, b, he, false);
    assert(boundary_scan(d, b, he, false) == boundary_scan(d, b, he + 1, false));
    assert(!crlf_at(d, he - 1));
    assert(boundary_scan(d, b, he + 1, false) == boundary_scan(d, b, he + 2, false));
    lemma_scan_from_later(d, b, he + 2, j + 2, de, false);
    lemma_scan_prefix(d, b, m, j + 2, false);
    lemma_scan_shift(p, b, j, 2, true, false);
    if s.len() == 0 || b.len() > s.len() {
        assert(boundary_scan(s, b, 0, true) is None);
    } else {
        assert(boundary_scan(s, b, 0, true) == boundary_scan(s, b, 1, true));
        if s.len() <= 1 || b.len() + 1 > s.len() {
            assert(boundary_scan(s, b, 1, true) is None);
        } else {
            assert(boundary_scan(s, b, 1, true) == boundary_scan(s, b, 2, true));
        }
    }
}

// ----------------------------------------------------------------------------
// One step over an arrived prefix of the body
// ----------------------------------------------------------------------------

/// The part in progress that parsing the part at the delimiter at `k` has
/// built once its data up to byte `j` arrived.
spec fn open_progress(d: Seq<u8>, b: Seq<u8>, k: int, j: int) -> PartProgress {
    let (hs, he) = part_headers(d, b, k);
    let (name, filename) = part_name(d, b, k);
    PartProgress {
        name,
        filename,
        content_type: first_value(hs, "content-type"@),
        headers: hs,
        size: (j - he) as usize,
        data: d.subrange(he, j),
    }
}

/// At the delimiter at `k`, with the body up to `m` arrived and the part's
/// header block not all there yet, the step waits.
proof fn lemma_step_begin_wait(
    d: Seq<u8>,
    b: Seq<u8>,
    cfg: MultipartConfigView,
    k: int,
    count: int,
    total: int,
    m: int,
    st: StreamView,
    eof: bool,
)
    requires
        parse_parts_from(d, b, cfg, k, count, total) is Parsed,
        !(k + b.len() + 2 <= d.len() && dashes_at(d, k + b.len())),
        bytes_at(d, b, k),
        0 <= k <= m <= d.len(),
        m < part_headers(d, b, k).1,
        st.started,
        !st.done,
        st.current is None,
    ensures
        incr_step(d.subrange(k, m), st, b, cfg, eof) == IncrStep::Return(d.subrange(k, m), st, eof_result(eof)),
{
    let bl = b.len() as int;
    let buf = d.subrange(k, m);
    let p = d.take(m);
    assert(buf =~= p.skip(k));
    lemma_part_facts(d, b, cfg, k, count, total);
    lemma_headers_from_bounds(d, k + bl + 2, Seq::empty());
    assert((StreamView { started: true, ..st }) == st);
    if m - k < bl {
        assert(!bytes_at(buf, b, 0));
        assert(boundary_scan(buf, b, 0, false) is None);
    } else {
        assert(buf.subrange(0, bl) =~= d.subrange(k, k + bl));
        assert(bytes_at(buf, b, 0));
        if m - k >= bl + 2 {
            assert(buf[bl] == d[k + bl] && buf[bl + 1] == d[k + bl + 1]);
            assert(crlf_at(buf, bl));
            assert(!dashes_at(buf, bl));
            lemma_headers_prefix(d, m, k + bl + 2, Seq::empty());
            lemma_headers_shift(p, k, bl + 2, Seq::empty());
        }
    }
}

/// At the delimiter at `k`, with the part's header block all arrived, the
/// step opens the part.
proof fn lemma_step_begin_open(
    d: Seq<u8>,
    b: Seq<u8>,
    cfg: MultipartConfigView,
    k: int,
    count: int,
    total: int,
    m: int,
    st: StreamView,
    eof: bool,
)
    requires
        parse_parts_from(d, b, cfg, k, count, total) is Parsed,
        !(k + b.len() + 2 <= d.len() && dashes_at(d, k + b.len())),
        bytes_at(d, b, k),
        0 <= k <= m <= d.len(),
        part_headers(d, b, k).1 <= m,
        st.started,
        !st.done,
        st.current is None,
    ensures
        incr_step(d.subrange(k, m), st, b, cfg, eof) == IncrStep::Continue(
            d.subrange(part_headers(d, b, k).1, m),
            StreamView { current: Some(open_progress(d, b, k, part_headers(d, b, k).1)), ..st },
            Seq::empty(),
        ),
{
    let bl = b.len() as int;
    let buf = d.subrange(k, m);
    let p = d.take(m);
    assert(buf =~= p.skip(k));
    lemma_part_facts(d, b, cfg, k, count, total);
    lemma_headers_from_bounds(d, k + bl + 2, Seq::empty());
    assert((StreamView { started: true, ..st }) == st);
    assert(buf.subrange(0, bl) =~= d.subrange(k, k + bl));
    assert(bytes_at(buf, b, 0));
    assert(buf[bl] == d[k + bl] && buf[bl + 1] == d[k + bl + 1]);
    assert(crlf_at(buf, bl));
    assert(!dashes_at(buf, bl));
    lemma_headers_prefix(d, m, k + bl + 2, Seq::empty());
    lemma_headers_shift(p, k, bl + 2, Seq::empty());
    let he = part_headers(d, b, k).1;
    assert(buf.skip(he - k) =~= d.subrange(he, m));
    assert(d.subrange(he, he) =~= Seq::<u8>::empty());
}

/// Inside the data of the part at the delimiter at `k`, at byte `j`, with the
/// part's end delimiter arrived: the step finishes the part.
#[verifier::rlimit(40)]
proof fn lemma_step_data_end(
    d: Seq<u8>,
    b: Seq<u8>,
    cfg: MultipartConfigView,
    k: int,
    count: int,
    total: int,
    j: int,
    m: int,
    st: StreamView,
    eof: bool,
)
    requires
        parse_parts_from(d, b, cfg, k, count, total) is Parsed,
        !(k + b.len() + 2 <= d.len() && dashes_at(d, k + b.len())),
        0 <= k,
        0 <= count,
        0 <= total <= cfg.max_total_size,
        part_headers(d, b, k).1 <= j <= part_delim(d, b, k) - 2,
        part_delim(d, b, k) + b.len() + 2 <= m <= d.len(),
        st.started,
        !st.done,
        st.current == Some(open_progress(d, b, k, j)),
        st.part_count == count,
        st.total_size == total + (j - part_headers(d, b, k).1),
    ensures
        ({
            let de = part_delim(d, b, k);
            let data = part_data(d, b, k);
            incr_step(d.subrange(j, m), st, b, cfg, eof) == IncrStep::Continue(
                d.subrange(de, m),
                StreamView {
                    current: None,
                    total_size: (total + data.len()) as usize,
                    part_count: (count + 1) as usize,
                    ..st
                },
                seq![finished_part(open_progress(d, b, k, de - 2))],
            )
        }),
{
    lemma_part_facts(d, b, cfg, k, count, total);
    lemma_headers_from_bounds(d, k + b.len() + 2, Seq::empty());
    let he = part_headers(d, b, k).1;
    let de = part_delim(d, b, k);
    let data = part_data(d, b, k);
    let cp = st.current->Some_0;
    let buf = d.subrange(j, m);
    assert((StreamView { started: true, ..st }) == st);
    assert(incr_step(buf, st, b, cfg, eof) == incr_part_data(buf, st, cp, b, cfg, eof));
    lemma_part_scan(d, b, he, de, j, m);
    let dp = de - j;
    assert(buf[dp - 2] == d[de - 2] && buf[dp - 1] == d[de - 1]);
    assert(crlf_at(buf, dp - 2));
    let we = dp - 2;
    let chunk = buf.take(we);
    assert(chunk =~= d.subrange(j, de - 2));
    let cp2 = open_progress(d, b, k, de - 2);
    assert(cp2.data =~= data);
    if we > 0 {
        assert(cp.data + chunk =~= cp2.data);
        assert(append_spec(cp, chunk, cfg, st.total_size) == Ok::<(PartProgress, usize), MultipartError>(
            (cp2, (total + data.len()) as usize)));
    } else {
        assert(cp2 == cp);
    }
    assert(buf.skip(dp) =~= d.subrange(de, m));
}

/// Inside the data of the part at the delimiter at `k`, at byte `j`, with
/// the end delimiter not all arrived: the step appends what cannot belong
/// to it and keeps the rest.
#[verifier::rlimit(40)]
proof fn lemma_step_data_wait(
    d: Seq<u8>,
    b: Seq<u8>,
    cfg: MultipartConfigView,
    k: int,
    count: int,
    total: int,
    j: int,
    m: int,
    st: StreamView,
)
    requires
        parse_parts_from(d, b, cfg, k, count, total) is Parsed,
        !(k + b.len() + 2 <= d.len() && dashes_at(d, k + b.len())),
        0 <= k,
        0 <= count,
        0 <= total <= cfg.max_total_size,
        b.len() + 4 <= usize::MAX,
        part_headers(d, b, k).1 <= j <= part_delim(d, b, k) - 2,
        j <= m < part_delim(d, b, k) + b.len() + 2,
        m <= d.len(),
        st.started,
        !st.done,
        st.current == Some(open_progress(d, b, k, j)),
        st.part_count == count,
        st.total_size == total + (j - part_headers(d, b, k).1),
    ensures
        ({
            let j2 = if m - j > b.len() + 4 { m - (b.len() + 4) } else { j };
            incr_step(d.subrange(j, m), st, b, cfg, false) == IncrStep::Return(
                d.subrange(j2, m),
                StreamView {
                    current: Some(open_progress(d, b, k, j2)),
                    total_size: (total + (j2 - part_headers(d, b, k).1)) as usize,
                    ..st
                },
                Ok(Seq::empty()),
            )
        }),
{
    lemma_part_facts(d, b, cfg, k, count, total);
    lemma_headers_from_bounds(d, k + b.len() + 2, Seq::empty());
    let he = part_headers(d, b, k).1;
    let de = part_delim(d, b, k);
    let data = part_data(d, b, k);
    let cp = st.current->Some_0;
    let buf = d.subrange(j, m);
    assert((StreamView { started: true, ..st }) == st);
    assert(incr_step(buf, st, b, cfg, false) == incr_part_data(buf, st, cp, b, cfg, false));
    lemma_part_scan(d, b, he, de, j, m);
    assert(keep_len(b) == b.len() + 4);
    if m - j > b.len() + 4 {
        let j2 = m - (b.len() + 4);
        let flush = j2 - j;
        let chunk = buf.take(flush);
        assert(chunk =~= d.subrange(j, j2));
        let cp2 = open_progress(d, b, k, j2);
        assert(cp.data + chunk =~= cp2.data);
        assert(append_spec(cp, chunk, cfg, st.total_size) == Ok::<(PartProgress, usize), MultipartError>(
            (cp2, (total + (j2 - he)) as usize)));
        assert(buf.skip(flush) =~= d.subrange(j2, m));
    }
}

pub open spec fn stream_start() -> StreamView {
    StreamView { started: false, done: false, part_count: 0, total_size: 0, current: None }
}

/// Where incremental parsing of `d` stands after its first `m` bytes
/// arrived: done, or before the part at the delimiter at `k` (counted
/// `count`, with `total` bytes of data before it) with the buffer holding
/// the body from `k`, or inside that part's data with the data up to the
/// buffer's start appended to the open part. Before the first delimiter has
/// arrived, nothing has started.
#[verifier::opaque]
spec fn incr_at(
    d: Seq<u8>,
    b: Seq<u8>,
    cfg: MultipartConfigView,
    m: int,
    buf: Seq<u8>,
    st: StreamView,
    k: int,
    count: int,
    total: int,
) -> bool {
    &&& 0 <= count
    &&& 0 <= total <= cfg.max_total_size
    &&& 0 <= k <= m <= d.len()
    &&& !st.done ==> {
        &&& parse_parts_from(d, b, cfg, k, count, total) is Parsed
        &&& bytes_at(d, b, k)
        &&& st.part_count == count
        &&& if st.current is None {
            &&& buf == d.subrange(k, m)
            &&& st.total_size == total
            &&& !st.started ==> k == 0 && st == stream_start() && m < b.len() + 2
        } else {
            let j = m - buf.len();
            &&& st.started
            &&& !(k + b.len() + 2 <= d.len() && dashes_at(d, k + b.len()))
            &&& part_headers(d, b, k).1 <= j <= part_delim(d, b, k) - 2
            &&& buf == d.subrange(j, m)
            &&& st.current == Some(open_progress(d, b, k, j))
            &&& st.total_size == total + (j - part_headers(d, b, k).1)
        }
    }
}

/// The parts still to come from such a state.
spec fn incr_rem(d: Seq<u8>, b: Seq<u8>, cfg: MultipartConfigView, st: StreamView, k: int, count: int, total: int) -> Seq<
    PartView,
> {
    if st.done {
        Seq::empty()
    } else {
        parse_parts_from(d, b, cfg, k, count, total)->Parsed_0
    }
}

proof fn lemma_unspooled_concat(a: Seq<PartView>, c: Seq<PartView>)
    ensures
        (a + c).map_values(|p: PartView| unspooled(p)) == a.map_values(|p: PartView| unspooled(p)) + c.map_values(
            |p: PartView| unspooled(p),
        ),
{
    assert((a + c).map_values(|p: PartView| unspooled(p)) =~= a.map_values(|p: PartView| unspooled(p))
        + c.map_values(|p: PartView| unspooled(p)));
}

/// The body's parts need at least the first delimiter and two bytes after.
proof fn lemma_parse_needs_delimiter(d: Seq<u8>, b: Seq<u8>, cfg: MultipartConfigView, k: int, count: int, total: int)
    requires
        parse_parts_from(d, b, cfg, k, count, total) is Parsed,
        0 <= k,
    ensures
        k + b.len() + 2 <= d.len(),
        crlf_at(d, k + b.len()) || dashes_at(d, k + b.len()),
{
    if !(k + b.len() + 2 <= d.len() && dashes_at(d, k + b.len())) {
        lemma_part_facts(d, b, cfg, k, count, total);
    }
}

/// What one call from `buf` in state `st` gives: success, the parts the
/// whole parse gives next, and a state at the parts that remain.
#[verifier::opaque]
spec fn call_post(
    d: Seq<u8>,
    b: Seq<u8>,
    cfg: MultipartConfigView,
    big: Seq<u8>,
    st: StreamView,
    k: int,
    count: int,
    total: int,
    m2: int,
    eof: bool,
    r: (int, int, int),
) -> bool {
    let (b2, s2, res) = incr_run(big, st, b, cfg, eof);
    &&& res is Ok
    &&& incr_at(d, b, cfg, m2, b2, s2, r.0, r.1, r.2)
    &&& incr_rem(d, b, cfg, st, k, count, total) == res->Ok_0.map_values(|p: PartView| unspooled(p)) + incr_rem(
        d,
        b,
        cfg,
        s2,
        r.0,
        r.1,
        r.2,
    )
    &&& eof ==> s2.done
}

proof fn lemma_run_return(big: Seq<u8>, st: StreamView, b: Seq<u8>, cfg: MultipartConfigView, eof: bool)
    requires
        incr_step(big, st, b, cfg, eof) is Return,
    ensures
        incr_run(big, st, b, cfg, eof) == (match incr_step(big, st, b, cfg, eof) {
            IncrStep::Return(b2, s2, r) => (b2, s2, r),
            _ => (big, st, Ok(Seq::empty())),
        }),
{
}

proof fn lemma_run_continue(big: Seq<u8>, st: StreamView, b: Seq<u8>, cfg: MultipartConfigView, eof: bool, b1: Seq<u8>, st1: StreamView, ps: Seq<PartView>)
    requires
        incr_step(big, st, b, cfg, eof) == IncrStep::Continue(b1, st1, ps),
        b1.len() < big.len(),
    ensures
        incr_run(big, st, b, cfg, eof) == (incr_run(b1, st1, b, cfg, eof).0, incr_run(b1, st1, b, cfg, eof).1, match incr_run(
            b1,
            st1,
            b,
            cfg,
            eof,
        ).2 {
            Ok(rest) => Ok(ps + rest),
            Err(e) => Err(e),
        }),
{
}

/// A step that gives nothing and leaves the parser where the remaining
/// parts still start.
proof fn lemma_post_wait(
    d: Seq<u8>,
    b: Seq<u8>,
    cfg: MultipartConfigView,
    big: Seq<u8>,
    st: StreamView,
    k: int,
    count: int,
    total: int,
    m2: int,
    eof: bool,
    b2: Seq<u8>,
    s2: StreamView,
)
    requires
        incr_step(big, st, b, cfg, eof) == IncrStep::Return(b2, s2, Ok::<Seq<PartView>, MultipartError>(Seq::empty())),
        incr_at(d, b, cfg, m2, b2, s2, k, count, total),
        incr_rem(d, b, cfg, st, k, count, total) == incr_rem(d, b, cfg, s2, k, count, total),
        eof ==> s2.done,
    ensures
        call_post(d, b, cfg, big, st, k, count, total, m2, eof, (k, count, total)),
{
    reveal(incr_at);
    reveal(call_post);
    lemma_run_return(big, st, b, cfg, eof);
    assert(Seq::<PartView>::empty().map_values(|p: PartView| unspooled(p)) =~= Seq::<PartView>::empty());
    assert(Seq::<PartView>::empty() + incr_rem(d, b, cfg, s2, k, count, total) =~= incr_rem(d, b, cfg, s2, k, count, total));
}

/// A step that continues without a part: what follows gives everything.
proof fn lemma_post_skip(
    d: Seq<u8>,
    b: Seq<u8>,
    cfg: MultipartConfigView,
    big: Seq<u8>,
    st: StreamView,
    k: int,
    count: int,
    total: int,
    m2: int,
    eof: bool,
    b1: Seq<u8>,
    st1: StreamView,
    r: (int, int, int),
)
    requires
        incr_step(big, st, b, cfg, eof) == IncrStep::Continue(b1, st1, Seq::empty()),
        b1.len() < big.len(),
        call_post(d, b, cfg, b1, st1, k, count, total, m2, eof, r),
        incr_rem(d, b, cfg, st, k, count, total) == incr_rem(d, b, cfg, st1, k, count, total),
    ensures
        call_post(d, b, cfg, big, st, k, count, total, m2, eof, r),
{
    reveal(incr_at);
    reveal(call_post);
    lemma_run_continue(big, st, b, cfg, eof, b1, st1, Seq::empty());
    let res = incr_run(b1, st1, b, cfg, eof).2;
    assert(Seq::<PartView>::empty() + res->Ok_0 =~= res->Ok_0);
}

/// A step that finishes a part: that part, then what follows gives.
proof fn lemma_post_part(
    d: Seq<u8>,
    b: Seq<u8>,
    cfg: MultipartConfigView,
    big: Seq<u8>,
    st: StreamView,
    k: int,
    count: int,
    total: int,
    m2: int,
    eof: bool,
    b1: Seq<u8>,
    st1: StreamView,
    fp: PartView,
    k1: int,
    count1: int,
    total1: int,
    r: (int, int, int),
)
    requires
        incr_step(big, st, b, cfg, eof) == IncrStep::Continue(b1, st1, seq![fp]),
        b1.len() < big.len(),
        call_post(d, b, cfg, b1, st1, k1, count1, total1, m2, eof, r),
        incr_rem(d, b, cfg, st, k, count, total) == seq![unspooled(fp)] + incr_rem(d, b, cfg, st1, k1, count1, total1),
    ensures
        call_post(d, b, cfg, big, st, k, count, total, m2, eof, r),
{
    reveal(incr_at);
    reveal(call_post);
    lemma_run_continue(big, st, b, cfg, eof, b1, st1, seq![fp]);
    let (b3, s3, res) = incr_run(b1, st1, b, cfg, eof);
    let f = |p: PartView| unspooled(p);
    lemma_unspooled_concat(seq![fp], res->Ok_0);
    assert(seq![fp].map_values(f) =~= seq![unspooled(fp)]);
    let tail = incr_rem(d, b, cfg, s3, r.0, r.1, r.2);
    assert(seq![unspooled(fp)] + (res->Ok_0.map_values(f) + tail) =~= seq![unspooled(fp)] + res->Ok_0.map_values(f)
        + tail);
}

/// A done parser gives nothing more.
proof fn lemma_call_done(
    d: Seq<u8>,
    b: Seq<u8>,
    cfg: MultipartConfigView,
    m: int,
    buf: Seq<u8>,
    st: StreamView,
    k: int,
    count: int,
    total: int,
    m2: int,
    eof: bool,
)
    requires
        incr_at(d, b, cfg, m, buf, st, k, count, total),
        st.done,
        m <= m2 <= d.len(),
    ensures
        call_post(d, b, cfg, buf + d.subrange(m, m2), st, k, count, total, m2, eof, (k, count, total)),
{
    reveal(incr_at);
    let big = buf + d.subrange(m, m2);
    assert(incr_step(big, st, b, cfg, eof) == IncrStep::Return(big, st, Ok::<Seq<PartView>, MultipartError>(Seq::empty())));
    lemma_post_wait(d, b, cfg, big, st, k, count, total, m2, eof, big, st);
}

/// Before the first delimiter and the two bytes after it have arrived,
/// nothing happens.
proof fn lemma_call_start_wait(
    d: Seq<u8>,
    b: Seq<u8>,
    cfg: MultipartConfigView,
    m: int,
    buf: Seq<u8>,
    st: StreamView,
    k: int,
    count: int,
    total: int,
    m2: int,
    eof: bool,
)
    requires
        incr_at(d, b, cfg, m, buf, st, k, count, total),
        !st.done,
        !st.started,
        st.current is None,
        m <= m2 < b.len() + 2,
        m2 <= d.len(),
        eof ==> m2 == d.len(),
        b.len() + 4 <= usize::MAX,
    ensures
        call_post(d, b, cfg, buf + d.subrange(m, m2), st, k, count, total, m2, eof, (k, count, total)),
{
    reveal(incr_at);
    let bl = b.len() as int;
    let big = buf + d.subrange(m, m2);
    lemma_parse_needs_delimiter(d, b, cfg, k, count, total);
    assert(big =~= d.subrange(k, m2));
    if m2 >= bl {
        assert(big.subrange(0, bl) =~= d.subrange(0, bl));
    }
    assert(boundary_scan(big, b, 0, false) is None);
    assert(keep_len(b) == bl + 4);
    assert(incr_step(big, st, b, cfg, eof) == IncrStep::Return(big, st, Ok::<Seq<PartView>, MultipartError>(Seq::empty())));
    lemma_post_wait(d, b, cfg, big, st, k, count, total, m2, eof, big, st);
}

/// Once the first delimiter and the two bytes after it have arrived, the
/// parser starts at it.
proof fn lemma_call_start(
    d: Seq<u8>,
    b: Seq<u8>,
    cfg: MultipartConfigView,
    m: int,
    buf: Seq<u8>,
    st: StreamView,
    k: int,
    count: int,
    total: int,
    m2: int,
    eof: bool,
) -> (st1: StreamView)
    requires
        incr_at(d, b, cfg, m, buf, st, k, count, total),
        !st.done,
        !st.started,
        st.current is None,
        m <= m2,
        b.len() + 2 <= m2 <= d.len(),
    ensures
        st1.started,
        incr_step(buf + d.subrange(m, m2), st, b, cfg, eof) == incr_step(buf + d.subrange(m, m2), st1, b, cfg, eof),
        incr_at(d, b, cfg, m2, buf + d.subrange(m, m2), st1, k, count, total),
        incr_rem(d, b, cfg, st, k, count, total) == incr_rem(d, b, cfg, st1, k, count, total),
{
    reveal(incr_at);
    let bl = b.len() as int;
    let big = buf + d.subrange(m, m2);
    lemma_parse_needs_delimiter(d, b, cfg, k, count, total);
    assert(big =~= d.subrange(k, m2));
    let st1 = StreamView { started: true, ..st };
    assert(big.subrange(0, bl) =~= d.subrange(0, bl));
    assert(big[bl] == d[bl] && big[bl + 1] == d[bl + 1]);
    assert(boundary_scan(big, b, 0, false) == Some(0int));
    assert(big.skip(0) =~= big);
    st1
}

proof fn lemma_post_same_step(
    d: Seq<u8>,
    b: Seq<u8>,
    cfg: MultipartConfigView,
    big: Seq<u8>,
    st: StreamView,
    st1: StreamView,
    k: int,
    count: int,
    total: int,
    m2: int,
    eof: bool,
    r: (int, int, int),
)
    requires
        incr_step(big, st, b, cfg, eof) == incr_step(big, st1, b, cfg, eof),
        call_post(d, b, cfg, big, st1, k, count, total, m2, eof, r),
        incr_rem(d, b, cfg, st, k, count, total) == incr_rem(d, b, cfg, st1, k, count, total),
    ensures
        call_post(d, b, cfg, big, st, k, count, total, m2, eof, r),
{
    reveal(call_post);
    assert(incr_run(big, st, b, cfg, eof) == incr_run(big, st1, b, cfg, eof));
}

/// At a part's delimiter with its header block not all arrived: waiting.
proof fn lemma_call_begin_wait(
    d: Seq<u8>,
    b: Seq<u8>,
    cfg: MultipartConfigView,
    m: int,
    buf: Seq<u8>,
    st: StreamView,
    k: int,
    count: int,
    total: int,
    m2: int,
    eof: bool,
)
    requires
        incr_at(d, b, cfg, m, buf, st, k, count, total),
        !st.done,
        st.started,
        st.current is None,
        !(k + b.len() + 2 <= d.len() && dashes_at(d, k + b.len())),
        m <= m2 <= d.len(),
        eof ==> m2 == d.len(),
        m2 < part_headers(d, b, k).1,
    ensures
        call_post(d, b, cfg, buf + d.subrange(m, m2), st, k, count, total, m2, eof, (k, count, total)),
{
    reveal(incr_at);
    let big = buf + d.subrange(m, m2);
    assert(big =~= d.subrange(k, m2));
    lemma_part_facts(d, b, cfg, k, count, total);
    lemma_headers_from_bounds(d, k + b.len() + 2, Seq::empty());
    lemma_step_begin_wait(d, b, cfg, k, count, total, m2, st, eof);
    lemma_post_wait(d, b, cfg, big, st, k, count, total, m2, eof, big, st);
}

/// At a part's delimiter with its header block arrived: the part opens.
proof fn lemma_call_begin_open(
    d: Seq<u8>,
    b: Seq<u8>,
    cfg: MultipartConfigView,
    m: int,
    buf: Seq<u8>,
    st: StreamView,
    k: int,
    count: int,
    total: int,
    m2: int,
    eof: bool,
) -> (r: (Seq<u8>, StreamView))
    requires
        incr_at(d, b, cfg, m, buf, st, k, count, total),
        !st.done,
        st.started,
        st.current is None,
        !(k + b.len() + 2 <= d.len() && dashes_at(d, k + b.len())),
        m <= m2 <= d.len(),
        part_headers(d, b, k).1 <= m2,
    ensures
        incr_step(buf + d.subrange(m, m2), st, b, cfg, eof) == IncrStep::Continue(r.0, r.1, Seq::empty()),
        r.0.len() < (buf + d.subrange(m, m2)).len(),
        r.0 + d.subrange(m2, m2) == r.0,
        incr_at(d, b, cfg, m2, r.0, r.1, k, count, total),
        incr_rem(d, b, cfg, st, k, count, total) == incr_rem(d, b, cfg, r.1, k, count, total),
{
    reveal(incr_at);
    let big = buf + d.subrange(m, m2);
    assert(big =~= d.subrange(k, m2));
    lemma_part_facts(d, b, cfg, k, count, total);
    lemma_headers_from_bounds(d, k + b.len() + 2, Seq::empty());
    lemma_step_begin_open(d, b, cfg, k, count, total, m2, st, eof);
    let he = part_headers(d, b, k).1;
    let st1 = StreamView { current: Some(open_progress(d, b, k, he)), ..st };
    let b1 = d.subrange(he, m2);
    assert(b1 + d.subrange(m2, m2) =~= b1);
    (b1, st1)
}

/// One call of incremental parsing after the body has arrived up to `m2`:
/// the call succeeds, the parts it gives are the next parts the whole parse
/// gives, and the parser stands where the remaining parts start; with the
/// input at its end, the parser is done.
proof fn lemma_incr_call(
    d: Seq<u8>,
    b: Seq<u8>,
    cfg: MultipartConfigView,
    m: int,
    buf: Seq<u8>,
    st: StreamView,
    k: int,
    count: int,
    total: int,
    m2: int,
    eof: bool,
) -> (r: (int, int, int))
    requires
        incr_at(d, b, cfg, m, buf, st, k, count, total),
        0 <= m <= m2 <= d.len(),
        eof ==> m2 == d.len(),
        b.len() + 4 <= usize::MAX,
    ensures
        call_post(d, b, cfg, buf + d.subrange(m, m2), st, k, count, total, m2, eof, r),
    decreases m2 - (m - buf.len()), (if st.started { 0int } else { 1int }),
{
    let bl = b.len() as int;
    let big = buf + d.subrange(m, m2);
    assert(big.len() == buf.len() + (m2 - m));
    if st.done {
        lemma_call_done(d, b, cfg, m, buf, st, k, count, total, m2, eof);
        return (k, count, total);
    }
    if st.current is None {
        if !st.started {
            if m2 < bl + 2 {
                lemma_call_start_wait(d, b, cfg, m, buf, st, k, count, total, m2, eof);
                return (k, count, total);
            }
            let st1 = lemma_call_start(d, b, cfg, m, buf, st, k, count, total, m2, eof);
            assert(big + d.subrange(m2, m2) =~= big);
            let r = lemma_incr_call(d, b, cfg, m2, big, st1, k, count, total, m2, eof);
            lemma_post_same_step(d, b, cfg, big, st, st1, k, count, total, m2, eof, r);
            return r;
        }
        if k + bl + 2 <= d.len() && dashes_at(d, k + bl) {
            lemma_call_closing(d, b, cfg, m, buf, st, k, count, total, m2, eof);
            return (k, count, total);
        }
        if m2 < part_headers(d, b, k).1 {
            lemma_call_begin_wait(d, b, cfg, m, buf, st, k, count, total, m2, eof);
            return (k, count, total);
        }
        let (b1, st1) = lemma_call_begin_open(d, b, cfg, m, buf, st, k, count, total, m2, eof);
        let r = lemma_incr_call(d, b, cfg, m2, b1, st1, k, count, total, m2, eof);
        lemma_post_skip(d, b, cfg, big, st, k, count, total, m2, eof, b1, st1, r);
        return r;
    } else {
        let de = part_delim(d, b, k);
        if de + bl + 2 <= m2 {
            let (b1, st2, fp, t2) = lemma_call_data_end(d, b, cfg, m, buf, st, k, count, total, m2, eof);
            let r = lemma_incr_call(d, b, cfg, m2, b1, st2, de, count + 1, t2, m2, eof);
            lemma_post_part(d, b, cfg, big, st, k, count, total, m2, eof, b1, st2, fp, de, count + 1, t2, r);
            return r;
        } else {
            lemma_call_data_wait(d, b, cfg, m, buf, st, k, count, total, m2, eof);
            return (k, count, total);
        }
    }
}

/// At the closing delimiter: done once it has arrived, waiting before.
proof fn lemma_call_closing(
    d: Seq<u8>,
    b: Seq<u8>,
    cfg: MultipartConfigView,
    m: int,
    buf: Seq<u8>,
    st: StreamView,
    k: int,
    count: int,
    total: int,
    m2: int,
    eof: bool,
)
    requires
        incr_at(d, b, cfg, m, buf, st, k, count, total),
        k + b.len() + 2 <= d.len() && dashes_at(d, k + b.len()),
        !st.done,
        st.started,
        st.current is None,
        m <= m2 <= d.len(),
        eof ==> m2 == d.len(),
    ensures
        call_post(d, b, cfg, buf + d.subrange(m, m2), st, k, count, total, m2, eof, (k, count, total)),
{
    reveal(incr_at);
    reveal(call_post);
    let bl = b.len() as int;
    let big = buf + d.subrange(m, m2);
    assert(big =~= d.subrange(k, m2));
    assert((StreamView { started: true, ..st }) == st);
    if m2 - k < bl {
        assert(!bytes_at(big, b, 0));
        assert(boundary_scan(big, b, 0, false) is None);
    } else {
        assert(big.subrange(0, bl) =~= d.subrange(k, k + bl));
        assert(bytes_at(big, b, 0));
        if m2 - k >= bl + 2 {
            assert(big[bl] == d[k + bl] && big[bl + 1] == d[k + bl + 1]);
            assert(dashes_at(big, bl));
        }
    }
    match incr_step(big, st, b, cfg, eof) {
        IncrStep::Return(b2, s2, res) => {
            lemma_post_wait(d, b, cfg, big, st, k, count, total, m2, eof, b2, s2);
        },
        _ => {},
    }
}

/// Inside a part's data with its end delimiter arrived: the step that
/// finishes the part, and the state after it.
proof fn lemma_call_data_end(
    d: Seq<u8>,
    b: Seq<u8>,
    cfg: MultipartConfigView,
    m: int,
    buf: Seq<u8>,
    st: StreamView,
    k: int,
    count: int,
    total: int,
    m2: int,
    eof: bool,
) -> (r: (Seq<u8>, StreamView, PartView, int))
    requires
        incr_at(d, b, cfg, m, buf, st, k, count, total),
        !st.done,
        st.current is Some,
        part_delim(d, b, k) + b.len() + 2 <= m2,
        m <= m2 <= d.len(),
    ensures
        incr_step(buf + d.subrange(m, m2), st, b, cfg, eof) == IncrStep::Continue(r.0, r.1, seq![r.2]),
        r.0.len() < (buf + d.subrange(m, m2)).len(),
        r.0 + d.subrange(m2, m2) == r.0,
        incr_at(d, b, cfg, m2, r.0, r.1, part_delim(d, b, k), count + 1, r.3),
        incr_rem(d, b, cfg, st, k, count, total) == seq![unspooled(r.2)] + incr_rem(
            d,
            b,
            cfg,
            r.1,
            part_delim(d, b, k),
            count + 1,
            r.3,
        ),
{
    reveal(incr_at);
    reveal(call_post);
    let j = m - buf.len();
    assert(buf + d.subrange(m, m2) =~= d.subrange(j, m2));
    lemma_part_facts(d, b, cfg, k, count, total);
    lemma_headers_from_bounds(d, k + b.len() + 2, Seq::empty());
    lemma_step_data_end(d, b, cfg, k, count, total, j, m2, st, eof);
    let (hs, he) = part_headers(d, b, k);
    let (name, filename) = part_name(d, b, k);
    let de = part_delim(d, b, k);
    let data = part_data(d, b, k);
    let t2 = total + data.len();
    let st2 = StreamView { current: None, total_size: t2 as usize, part_count: (count + 1) as usize, ..st };
    let fp = finished_part(open_progress(d, b, k, de - 2));
    assert(open_progress(d, b, k, de - 2).data =~= data);
    assert(unspooled(fp) == parsed_part(name, filename, hs, data));
    assert(d.subrange(de, m2) + d.subrange(m2, m2) =~= d.subrange(de, m2));
    (d.subrange(de, m2), st2, fp, t2)
}

/// Inside a part's data with its end delimiter not all arrived: the step
/// waits, keeping the bytes that may start the delimiter.
proof fn lemma_call_data_wait(
    d: Seq<u8>,
    b: Seq<u8>,
    cfg: MultipartConfigView,
    m: int,
    buf: Seq<u8>,
    st: StreamView,
    k: int,
    count: int,
    total: int,
    m2: int,
    eof: bool,
)
    requires
        incr_at(d, b, cfg, m, buf, st, k, count, total),
        !st.done,
        st.current is Some,
        m2 < part_delim(d, b, k) + b.len() + 2,
        m <= m2 <= d.len(),
        eof ==> m2 == d.len(),
        b.len() + 4 <= usize::MAX,
    ensures
        call_post(d, b, cfg, buf + d.subrange(m, m2), st, k, count, total, m2, eof, (k, count, total)),
{
    reveal(incr_at);
    reveal(call_post);
    let j = m - buf.len();
    assert(buf + d.subrange(m, m2) =~= d.subrange(j, m2));
    lemma_part_facts(d, b, cfg, k, count, total);
    let de = part_delim(d, b, k);
    lemma_step_data_wait(d, b, cfg, k, count, total, j, m2, st);
    let bl = b.len() as int;
    let j2 = if m2 - j > bl + 4 { m2 - (bl + 4) } else { j };
    let s2 = StreamView {
        current: Some(open_progress(d, b, k, j2)),
        total_size: (total + (j2 - part_headers(d, b, k).1)) as usize,
        ..st
    };
    assert(d.subrange(j2, m2).len() == m2 - j2);
    lemma_post_wait(d, b, cfg, buf + d.subrange(m, m2), st, k, count, total, m2, eof, d.subrange(j2, m2), s2);
}

/// Feeds `chunks` one at a time: each is appended to the buffer and parsed
/// with more input to come; then parsing finishes with the input at its
/// end. The final buffer and state and all the parts given, or the first
/// error.
pub open spec fn incr_feed(
    buf: Seq<u8>,
    st: StreamView,
    chunks: Seq<Seq<u8>>,
    b: Seq<u8>,
    cfg: MultipartConfigView,
) -> (Seq<u8>, StreamView, Result<Seq<PartView>, MultipartError>)
    decreases chunks.len(),
{
    if chunks.len() == 0 {
        incr_run(buf, st, b, cfg, true)
    } else {
        let (b2, s2, r) = incr_run(buf + chunks[0], st, b, cfg, false);
        match r {
            Err(e) => (b2, s2, Err(e)),
            Ok(ps) => {
                let (b3, s3, r3) = incr_feed(b2, s2, chunks.drop_first(), b, cfg);
                (b3, s3, match r3 {
                    Ok(qs) => Ok(ps + qs),
                    Err(e) => Err(e),
                })
            },
        }
    }
}

proof fn lemma_feed(
    d: Seq<u8>,
    b: Seq<u8>,
    cfg: MultipartConfigView,
    chunks: Seq<Seq<u8>>,
    m: int,
    buf: Seq<u8>,
    st: StreamView,
    k: int,
    count: int,
    total: int,
)
    requires
        incr_at(d, b, cfg, m, buf, st, k, count, total),
        0 <= m <= d.len(),
        chunks.flatten() == d.subrange(m, d.len() as int),
        b.len() + 4 <= usize::MAX,
    ensures
        ({
            let (b3, s3, r) = incr_feed(buf, st, chunks, b, cfg);
            &&& s3.done
            &&& r is Ok
            &&& r->Ok_0.map_values(|p: PartView| unspooled(p)) == incr_rem(d, b, cfg, st, k, count, total)
        }),
    decreases chunks.len(),
{
    reveal(call_post);
    if chunks.len() == 0 {
        assert(d.subrange(m, d.len() as int).len() == 0);
        let r = lemma_incr_call(d, b, cfg, m, buf, st, k, count, total, m, true);
        assert(buf + d.subrange(m, m) =~= buf);
        let (b2, s2, res) = incr_run(buf, st, b, cfg, true);
        assert(res->Ok_0.map_values(|p: PartView| unspooled(p)) + Seq::<PartView>::empty() =~= res->Ok_0.map_values(
            |p: PartView| unspooled(p),
        ));
    } else {
        let c = chunks[0];
        let rest = chunks.drop_first();
        let m2 = m + c.len();
        let tail = d.subrange(m, d.len() as int);
        assert(chunks.flatten() == c + rest.flatten());
        assert(d.subrange(m, m2) =~= c) by {
            assert forall|i: int| 0 <= i < c.len() implies d.subrange(m, m2)[i] == c[i] by {
                assert(tail[i] == (c + rest.flatten())[i]);
            }
        }
        assert(rest.flatten() =~= d.subrange(m2, d.len() as int)) by {
            assert forall|i: int| 0 <= i < rest.flatten().len() implies rest.flatten()[i] == d.subrange(
                m2,
                d.len() as int,
            )[i] by {
                assert(tail[c.len() + i] == (c + rest.flatten())[c.len() + i]);
            }
        }
        let r = lemma_incr_call(d, b, cfg, m, buf, st, k, count, total, m2, false);
        let (b2, s2, res) = incr_run(buf + c, st, b, cfg, false);
        lemma_feed(d, b, cfg, rest, m2, b2, s2, r.0, r.1, r.2);
        let (b3, s3, r3) = incr_feed(b2, s2, rest, b, cfg);
        lemma_unspooled_concat(res->Ok_0, r3->Ok_0);
    }
}

/// Incremental parsing of a body cut into any chunks, fed one at a time
/// with more input to come and then once with the input at its end: every
/// call succeeds, the parts given are those parsing the whole body gives,
/// in order (each with its length recorded as the spooled length), and the
/// parser ends done. The body starts with its first delimiter.
pub proof fn lemma_incremental_chunks(chunks: Seq<Seq<u8>>, b: Seq<u8>, cfg: MultipartConfigView)
    requires
        parse_body_parts(chunks.flatten(), b, cfg) is Parsed,
        boundary_scan(chunks.flatten(), b, 0, false) == Some(0int),
        b.len() + 4 <= usize::MAX,
    ensures
        ({
            let (b3, s3, r) = incr_feed(Seq::empty(), stream_start(), chunks, b, cfg);
            &&& s3.done
            &&& r matches Ok(qs) && qs.map_values(|p: PartView| unspooled(p)) == parse_body_parts(
                chunks.flatten(),
                b,
                cfg,
            )->Parsed_0
        }),
{
    let d = chunks.flatten();
    lemma_boundary_scan_bounds(d, b, 0, false);
    assert(d.subrange(0, 0) =~= Seq::<u8>::empty());
    assert(d.subrange(0, d.len() as int) =~= d);
    assert(incr_at(d, b, cfg, 0, Seq::empty(), stream_start(), 0, 0, 0)) by {
        reveal(incr_at);
    }
    lemma_feed(d, b, cfg, chunks, 0, Seq::empty(), stream_start(), 0, 0, 0);
}

/// The incremental parser given the whole body at once, with the input at
/// its end, gives the parts that parsing the whole body gives, in order,
/// each as the incremental parser gives it (with its length recorded as
/// the spooled length), and finishes the body.
pub proof fn lemma_incremental_whole_body(d: Seq<u8>, b: Seq<u8>, cfg: MultipartConfigView)
    requires
        parse_body_parts(d, b, cfg) is Parsed,
    ensures
        ({
            let st0 = StreamView { started: false, done: false, part_count: 0, total_size: 0, current: None };
            let (b3, s3, r) = incr_run(d, st0, b, cfg, true);
            &&& s3.done
            &&& r matches Ok(qs) && parse_body_parts(d, b, cfg) matches PartsOutcome::Parsed(ps)
                && qs.map_values(|p: PartView| unspooled(p)) == ps
        }),
{
    let st0 = StreamView { started: false, done: false, part_count: 0, total_size: 0, current: None };
    let p = boundary_scan(d, b, 0, false)->Some_0;
    lemma_boundary_scan_bounds(d, b, 0, false);
    let st1 = StreamView { started: true, ..st0 };
    lemma_bytes_at_shift(d, b, p, 0);
    lemma_incr_whole_from(d, b, cfg, p, 0, 0, st1);
    assert(incr_step(d, st0, b, cfg, true) == incr_step(d.skip(p), st1, b, cfg, true));
}

/// A stream state within the limits: the total within `max_total_size`,
/// and a part in progress whose size counts its bytes, is part of the total,
/// and, for a file, is within `max_file_size`.
pub open spec fn stream_within_limits(st: StreamView, cfg: MultipartConfigView) -> bool {
    &&& st.total_size <= cfg.max_total_size
    &&& st.current matches Some(cp) ==> {
        &&& cp.size == cp.data.len()
        &&& cp.size <= st.total_size
        &&& cp.filename is Some ==> cp.size <= cfg.max_file_size
    }
}

/// Every file among the parts is within `max_file_size`.
pub open spec fn files_within_limit(ps: Seq<PartView>, cfg: MultipartConfigView) -> bool {
    forall|i: int| 0 <= i < ps.len() && (#[trigger] ps[i]).filename is Some ==> ps[i].data.len() <= cfg.max_file_size
}

proof fn lemma_append_within_limits(cp: PartProgress, chunk: Seq<u8>, cfg: MultipartConfigView, st: StreamView)
    requires
        stream_within_limits(st, cfg),
        st.current == Some(cp),
        st.total_size + chunk.len() <= usize::MAX,
    ensures
        append_spec(cp, chunk, cfg, st.total_size) matches Ok((cp2, t2)) ==> {
            &&& t2 == st.total_size + chunk.len()
            &&& t2 <= cfg.max_total_size
            &&& cp2.size == cp2.data.len() == cp.size + chunk.len()
            &&& cp2.size <= t2
            &&& cp2.filename == cp.filename
            &&& cp2.filename is Some ==> cp2.size <= cfg.max_file_size
        },
{
}

proof fn lemma_incr_step_within_limits(buf: Seq<u8>, st: StreamView, b: Seq<u8>, cfg: MultipartConfigView, eof: bool)
    requires
        stream_within_limits(st, cfg),
        buf.len() + st.total_size <= usize::MAX,
    ensures
        match incr_step(buf, st, b, cfg, eof) {
            IncrStep::Return(b2, s2, r) => stream_within_limits(s2, cfg) && (r matches Ok(ps) ==> files_within_limit(ps, cfg)),
            IncrStep::Continue(b2, s2, ps) => stream_within_limits(s2, cfg) && files_within_limit(ps, cfg)
                && b2.len() + s2.total_size <= buf.len() + st.total_size,
        },
{
    if st.done {
        return;
    }
    if !st.started && boundary_scan(buf, b, 0, false) is None {
        return;
    }
    lemma_boundary_scan_bounds(buf, b, 0, false);
    let buf1 = if !st.started { buf.skip(boundary_scan(buf, b, 0, false).unwrap()) } else { buf };
    let st1 = StreamView { started: true, ..st };
    assert(buf1.len() <= buf.len());
    match st1.current {
        None => {
            lemma_boundary_scan_bounds(buf1, b, 0, false);
            let buf2 = if !bytes_at(buf1, b, 0) {
                match boundary_scan(buf1, b, 0, false) {
                    None => buf1,
                    Some(p) => buf1.skip(p),
                }
            } else {
                buf1
            };
            assert(buf2.len() <= buf1.len());
            let be = b.len() as int;
            if be + 2 <= buf2.len() && !dashes_at(buf2, be) && crlf_at(buf2, be) {
                lemma_headers_from_bounds(buf2, be + 2, Seq::empty());
            }
        },
        Some(cp) => {
            lemma_boundary_scan_bounds(buf1, b, 0, true);
            match boundary_scan(buf1, b, 0, true) {
                Some(de) => {
                    let we = if de >= 2 && crlf_at(buf1, de - 2) { de - 2 } else { de };
                    if we > 0 {
                        lemma_append_within_limits(cp, buf1.take(we), cfg, st1);
                    }
                    let ap = if we > 0 { append_spec(cp, buf1.take(we), cfg, st1.total_size) } else { Ok((cp, st1.total_size)) };
                    if let Ok((cp2, t2)) = ap {
                        let f = seq![finished_part(cp2)];
                        assert(files_within_limit(f, cfg)) by {
                            assert forall|i: int| 0 <= i < f.len() && (#[trigger] f[i]).filename is Some implies f[i].data.len()
                                <= cfg.max_file_size by {
                                assert(f[i] == finished_part(cp2));
                            }
                        }
                    }
                },
                None => {
                    if !eof && buf1.len() > keep_len(b) {
                        let flush = buf1.len() - keep_len(b);
                        lemma_append_within_limits(cp, buf1.take(flush), cfg, st1);
                    }
                },
            }
        },
    }
}

proof fn lemma_incr_run_within_limits(buf: Seq<u8>, st: StreamView, b: Seq<u8>, cfg: MultipartConfigView, eof: bool)
    requires
        stream_within_limits(st, cfg),
        buf.len() + st.total_size <= usize::MAX,
    ensures
        ({
            let (b2, s2, r) = incr_run(buf, st, b, cfg, eof);
            stream_within_limits(s2, cfg) && (r matches Ok(ps) ==> files_within_limit(ps, cfg))
        }),
    decreases buf.len(),
{
    lemma_incr_step_within_limits(buf, st, b, cfg, eof);
    match incr_step(buf, st, b, cfg, eof) {
        IncrStep::Return(b2, s2, r) => {},
        IncrStep::Continue(b2, s2, ps) => {
            if b2.len() < buf.len() {
                lemma_incr_run_within_limits(b2, s2, b, cfg, eof);
                let (b3, s3, r) = incr_run(b2, s2, b, cfg, eof);
                if let Ok(rest) = r {
                    let all = ps + rest;
                    assert forall|i: int| 0 <= i < all.len() && (#[trigger] all[i]).filename is Some implies all[i].data.len()
                        <= cfg.max_file_size by {
                        if i < ps.len() {
                            assert(all[i] == ps[i]);
                        } else {
                            assert(all[i] == rest[i - ps.len()]);
                        }
                    }
                }
            }
        },
    }
}

/// Incremental parsing enforces the limits too: from a state within them,
/// a call leaves the state within them and returns no file larger than
/// `max_file_size`, for a buffer that together with the running total fits
/// in a `usize`.
pub proof fn lemma_incremental_within_limits(buf: Seq<u8>, st: StreamView, b: Seq<u8>, cfg: MultipartConfigView, eof: bool)
    requires
        stream_within_limits(st, cfg),
        buf.len() + st.total_size <= usize::MAX,
    ensures
        ({
            let (b2, s2, r) = incr_run(buf, st, b, cfg, eof);
            stream_within_limits(s2, cfg) && (r matches Ok(ps) ==> files_within_limit(ps, cfg))
        }),
{
    lemma_incr_run_within_limits(buf, st, b, cfg, eof);
}

/// Removes the first `k` bytes of `buf`.
fn drain_front(buf: &mut Vec<u8>, k: usize)
    requires
        k <= old(buf)@.len(),
    ensures
        final(buf)@ == old(buf)@.skip(k as int),
{
    let rest = copy_range(buf.as_slice(), k, buf.len());
    *buf = rest;
}


/// What one round of incremental parsing did.
enum ExecStep {
    Stop(Result<Vec<Part>, MultipartError>),
    Go(Vec<Part>),
}

pub open spec fn result_view(r: Result<Vec<Part>, MultipartError>) -> Result<Seq<PartView>, MultipartError> {
    match r {
        Ok(v) => Ok(parts_view(v@)),
        Err(e) => Err(e),
    }
}

spec fn step_matches(x: ExecStep, buf: Seq<u8>, st: StreamView, s: IncrStep) -> bool {
    match s {
        IncrStep::Return(b2, s2, r) => buf == b2 && st == s2 && (x matches ExecStep::Stop(rr) && result_view(rr) == r),
        IncrStep::Continue(b2, s2, ps) => buf == b2 && st == s2 && (x matches ExecStep::Go(v) && parts_view(v@) == ps),
    }
}

fn eof_stop(eof: bool) -> (x: ExecStep)
    ensures
        x matches ExecStep::Stop(r) && result_view(r) == eof_result(eof),
{
    if eof {
        ExecStep::Stop(Err(MultipartError::UnexpectedEof))
    } else {
        let v: Vec<Part> = Vec::new();
        assert(parts_view(v@) =~= Seq::<PartView>::empty());
        ExecStep::Stop(Ok(v))
    }
}

fn empty_parts() -> (v: Vec<Part>)
    ensures
        parts_view(v@) == Seq::<PartView>::empty(),
{
    let v: Vec<Part> = Vec::new();
    assert(parts_view(v@) =~= Seq::<PartView>::empty());
    v
}

impl MultipartParser {
    fn append_chunk(&self, cp: &mut StreamingPartState, chunk: &[u8], total: &mut usize) -> (r: Result<(), MultipartError>)
        ensures
            match append_spec(old(cp).view_of(), chunk@, self.config@, *old(total)) {
                Ok((cp2, t2)) => r is Ok && final(cp).view_of() == cp2 && *final(total) == t2,
                Err(e) => r == Err::<(), MultipartError>(e) && final(cp).view_of() == old(cp).view_of()
                    && *final(total) == *old(total),
            },
    {
        if chunk.len() == 0 {
            return Ok(());
        }
        let next_size = if cp.size > usize::MAX - chunk.len() { usize::MAX } else { cp.size + chunk.len() };
        let next_total = if *total > usize::MAX - chunk.len() { usize::MAX } else { *total + chunk.len() };
        if cp.filename.is_some() && next_size > self.config.max_file_size {
            return Err(MultipartError::FileTooLarge { size: next_size, max: self.config.max_file_size });
        }
        if next_total > self.config.max_total_size {
            return Err(MultipartError::TotalTooLarge { size: next_total, max: self.config.max_total_size });
        }
        extend_from_range(&mut cp.data, chunk, 0, chunk.len());
        assert(chunk@.subrange(0, chunk@.len() as int) == chunk@);
        cp.size = next_size;
        *total = next_total;
        Ok(())
    }

    fn begin_part(&self, buffer: &mut Vec<u8>, state: &mut MultipartStreamState, eof: bool) -> (x: ExecStep)
        requires
            old(state)@.current is None,
        ensures
            step_matches(x, final(buffer)@, final(state)@, incr_begin_part(old(buffer)@, old(state)@, self@.delimiter, eof)),
    {
        let be = self.boundary.len();
        if buffer.len() < 2 || be > buffer.len() - 2 {
            return eof_stop(eof);
        }
        if buffer[be] == 45u8 && buffer[be + 1] == 45u8 {
            state.done = true;
            let mut consumed = be + 2;
            if buffer.len() >= 2 && consumed <= buffer.len() - 2 && buffer[consumed] == 13u8 && buffer[consumed + 1] == 10u8 {
                consumed = consumed + 2;
            }
            drain_front(buffer, consumed);
            return ExecStep::Stop(Ok(empty_parts()));
        }
        if !(buffer[be] == 13u8 && buffer[be + 1] == 10u8) {
            return ExecStep::Stop(Err(MultipartError::InvalidFormat { detail: "expected CRLF after boundary" }));
        }
        proof {
            lemma_headers_from_bounds(buffer@, be + 2, Seq::empty());
        }
        let (headers, ds) = match self.parse_part_headers(buffer.as_slice(), be + 2) {
            Ok(v) => v,
            Err(MultipartError::UnexpectedEof) => {
                return eof_stop(eof);
            },
            Err(e) => {
                return ExecStep::Stop(Err(e));
            },
        };
        let cd = match header_get(&headers, "content-disposition") {
            Some(v) => v,
            None => {
                return ExecStep::Stop(Err(MultipartError::MissingContentDisposition));
            },
        };
        let (name, filename) = match parse_content_disposition(cd.as_str()) {
            Ok(v) => v,
            Err(e) => {
                return ExecStep::Stop(Err(e));
            },
        };
        let content_type = header_get(&headers, "content-type");
        state.current_part = Some(StreamingPartState {
            name,
            filename,
            content_type,
            headers,
            size: 0,
            data: Vec::new(),
        });
        drain_front(buffer, ds);
        ExecStep::Go(empty_parts())
    }

    fn part_data(&self, buffer: &mut Vec<u8>, state: &mut MultipartStreamState, eof: bool) -> (x: ExecStep)
        requires
            old(state)@.current is Some,
        ensures
            step_matches(
                x,
                final(buffer)@,
                final(state)@,
                incr_part_data(old(buffer)@, old(state)@, old(state)@.current.unwrap(), self@.delimiter, self@.config, eof),
            ),
    {
        let buffer_len = buffer.len();
        let mut cp = match state.current_part.take() {
            Some(c) => c,
            None => {
                return ExecStep::Stop(Err(MultipartError::InvalidFormat { detail: "missing current multipart part state" }));
            },
        };
        proof {
            lemma_boundary_scan_bounds(buffer@, self.boundary@, 0, true);
        }
        match self.find_boundary_in_part_data(buffer.as_slice(), 0) {
            Ok(de) => {
                let we = if de >= 2 && buffer[de - 2] == 13u8 && buffer[de - 1] == 10u8 { de - 2 } else { de };
                let mut total = state.total_size;
                if we > 0 {
                    let head = copy_range(buffer.as_slice(), 0, we);
                    assert(head@ == buffer@.take(we as int));
                    match self.append_chunk(&mut cp, head.as_slice(), &mut total) {
                        Ok(()) => {},
                        Err(e) => {
                            state.current_part = Some(cp);
                            return ExecStep::Stop(Err(e));
                        },
                    }
                }
                let pc = if state.part_count == usize::MAX { usize::MAX } else { state.part_count + 1 };
                state.part_count = pc;
                state.total_size = total;
                if pc > self.config.max_fields {
                    state.current_part = Some(cp);
                    return ExecStep::Stop(Err(MultipartError::TooManyFields { count: pc, max: self.config.max_fields }));
                }
                let len = cp.data.len();
                let part = Part {
                    name: cp.name,
                    filename: cp.filename,
                    content_type: cp.content_type,
                    data: cp.data,
                    headers: cp.headers,
                    spooled_path: None,
                    spooled_len: Some(len),
                };
                let mut out: Vec<Part> = Vec::new();
                out.push(part);
                assert(parts_view(out@) =~= seq![part@]);
                drain_front(buffer, de);
                ExecStep::Go(out)
            },
            Err(_) => {
                if eof {
                    state.current_part = Some(cp);
                    return ExecStep::Stop(Err(MultipartError::UnexpectedEof));
                }
                let keep = if self.boundary.len() > usize::MAX - 4 { usize::MAX } else { self.boundary.len() + 4 };
                if buffer.len() > keep {
                    let flush = buffer.len() - keep;
                    let head = copy_range(buffer.as_slice(), 0, flush);
                    assert(head@ == buffer@.take(flush as int));
                    let mut total = state.total_size;
                    match self.append_chunk(&mut cp, head.as_slice(), &mut total) {
                        Ok(()) => {},
                        Err(e) => {
                            state.current_part = Some(cp);
                            return ExecStep::Stop(Err(e));
                        },
                    }
                    state.total_size = total;
                    state.current_part = Some(cp);
                    drain_front(buffer, flush);
                    return ExecStep::Stop(Ok(empty_parts()));
                }
                state.current_part = Some(cp);
                ExecStep::Stop(Ok(empty_parts()))
            },
        }
    }

    fn incremental_step(&self, buffer: &mut Vec<u8>, state: &mut MultipartStreamState, eof: bool) -> (x: ExecStep)
        ensures
            step_matches(x, final(buffer)@, final(state)@, incr_step(old(buffer)@, old(state)@, self@.delimiter, self@.config, eof)),
    {
        let buffer_len = buffer.len();
        if state.done {
            return ExecStep::Stop(Ok(empty_parts()));
        }
        proof {
            lemma_boundary_scan_bounds(buffer@, self.boundary@, 0, false);
        }
        if !state.started {
            match self.find_boundary_from(buffer.as_slice(), 0) {
                Ok(p) => {
                    state.started = true;
                    drain_front(buffer, p);
                },
                Err(_) => {
                    if eof {
                        return ExecStep::Stop(Err(MultipartError::UnexpectedEof));
                    }
                    let keep = if self.boundary.len() > usize::MAX - 4 { usize::MAX } else { self.boundary.len() + 4 };
                    if buffer.len() > keep {
                        let cut = buffer.len() - keep;
                        drain_front(buffer, cut);
                    }
                    return ExecStep::Stop(Ok(empty_parts()));
                },
            }
        } else {
            assert(buffer@ == buffer@.skip(0));
        }
        if state.current_part.is_none() {
            let at_start = buffer.len() >= self.boundary.len() && matches_at(buffer.as_slice(), self.boundary.as_slice(), 0);
            if !at_start {
                let buffer_len2 = buffer.len();
                proof {
                    lemma_boundary_scan_bounds(buffer@, self.boundary@, 0, false);
                }
                match self.find_boundary_from(buffer.as_slice(), 0) {
                    Ok(p) => {
                        drain_front(buffer, p);
                    },
                    Err(_) => {
                        return eof_stop(eof);
                    },
                }
            }
            self.begin_part(buffer, state, eof)
        } else {
            self.part_data(buffer, state, eof)
        }
    }

    /// Parses the parts that have fully arrived in `buffer`, consuming their
    /// bytes; call again as more bytes arrive, with `eof` set on the last call.
    #[verifier::rlimit(50)]
    pub fn parse_incremental(&self, buffer: &mut Vec<u8>, state: &mut MultipartStreamState, eof: bool) -> (r: Result<Vec<Part>, MultipartError>)
        ensures
            ({
                let (b2, s2, res) = incr_run(old(buffer)@, old(state)@, self@.delimiter, self@.config, eof);
                final(buffer)@ == b2 && final(state)@ == s2 && result_view(r) == res
            }),
    {
        let ghost goal = incr_run(buffer@, state@, self@.delimiter, self@.config, eof);
        let mut parsed: Vec<Part> = Vec::new();
        assert forall|s: Seq<PartView>| Seq::<PartView>::empty() + s == s by {
            assert(Seq::<PartView>::empty() + s =~= s);
        }
        assert(parts_view(parsed@) =~= Seq::<PartView>::empty());
        loop
            invariant
                goal == incr_run(old(buffer)@, old(state)@, self@.delimiter, self@.config, eof),
                ({
                    let (b2, s2, res) = incr_run(buffer@, state@, self@.delimiter, self@.config, eof);
                    goal == (b2, s2, match res {
                        Ok(rest) => Ok(parts_view(parsed@) + rest),
                        Err(e) => Err(e),
                    })
                }),
            decreases buffer@.len(),
        {
            let ghost b0 = buffer@;
            let ghost s0 = state@;
            let len0 = buffer.len();
            let ghost before = parts_view(parsed@);
            match self.incremental_step(buffer, state, eof) {
                ExecStep::Stop(Ok(mut ps)) => {
                    let ghost mine = parts_view(ps@);
                    let mut all = parsed;
                    all.append(&mut ps);
                    assert(parts_view(all@) =~= before + mine);
                    return Ok(all);
                },
                ExecStep::Stop(Err(e)) => {
                    return Err(e);
                },
                ExecStep::Go(mut ps) => {
                    let ghost mine = parts_view(ps@);
                    if buffer.len() >= len0 {
                        return Err(MultipartError::UnexpectedEof);
                    }
                    parsed.append(&mut ps);
                    assert(parts_view(parsed@) =~= before + mine);
                    proof {
                        let (b3, s3, r) = incr_run(buffer@, state@, self@.delimiter, self@.config, eof);
                        match r {
                            Ok(rest) => {
                                assert(before + (mine + rest) =~= parts_view(parsed@) + rest);
                            },
                            Err(_) => {},
                        }
                    }
                },
            }
        }
    }
}


// ============================================================================
// Parsed forms
// ============================================================================

/// The index of the first part named `name` that is a file (or a field).
pub open spec fn find_part(ps: Seq<PartView>, name: Seq<char>, file: bool, from: int) -> Option<int>
    decreases ps.len() - from,
{
    if from < 0 || from >= ps.len() {
        None
    } else if ps[from].name == name && (ps[from].filename is Some) == file {
        Some(from)
    } else {
        find_part(ps, name, file, from + 1)
    }
}

/// The uploads of the file parts of `ps`, restricted to `name` when given.
pub open spec fn uploads_of(ps: Seq<PartView>, name: Option<Seq<char>>, threshold: usize) -> Seq<UploadFileView>
    decreases ps.len(),
{
    if ps.len() == 0 {
        Seq::empty()
    } else {
        let rest = uploads_of(ps.drop_first(), name, threshold);
        let wanted = ps[0].filename is Some && match name {
            Some(n) => ps[0].name == n,
            None => true,
        };
        if wanted {
            seq![upload_of(ps[0], threshold).unwrap()] + rest
        } else {
            rest
        }
    }
}

/// The (name, text) of the plain fields whose content is valid UTF-8.
pub open spec fn fields_of(ps: Seq<PartView>) -> Seq<(Seq<char>, Seq<char>)>
    decreases ps.len(),
{
    if ps.len() == 0 {
        Seq::empty()
    } else {
        let rest = fields_of(ps.drop_first());
        if ps[0].filename is None && valid_utf8(ps[0].data) {
            seq![(ps[0].name, decode_utf8(ps[0].data))] + rest
        } else {
            rest
        }
    }
}

/// A part that gives a field: no file name, content in UTF-8.
pub open spec fn gives_field() -> spec_fn(PartView) -> bool {
    |p: PartView| p.filename is None && valid_utf8(p.data)
}

/// A file part.
pub open spec fn is_file_part() -> spec_fn(PartView) -> bool {
    |p: PartView| p.filename is Some
}

proof fn lemma_filter_cons<A>(x: A, s: Seq<A>, pred: spec_fn(A) -> bool)
    ensures
        (seq![x] + s).filter(pred) == (if pred(x) { seq![x] } else { Seq::<A>::empty() }) + s.filter(pred),
{
    Seq::filter_distributes_over_add(seq![x], s, pred);
    reveal_with_fuel(Seq::filter, 2);
    assert(seq![x].drop_last() =~= Seq::<A>::empty());
    if pred(x) {
        assert(seq![x].filter(pred) =~= seq![x]);
    } else {
        assert(seq![x].filter(pred) =~= Seq::<A>::empty());
    }
}

/// The fields of a form are its parts without a file name whose content is
/// UTF-8, in order, each as its name and its text: a file part never gives
/// a field, whatever its content.
pub proof fn lemma_fields_are_plain_parts(ps: Seq<PartView>)
    ensures
        fields_of(ps) == ps.filter(gives_field()).map_values(|p: PartView| (p.name, decode_utf8(p.data))),
        fields_of(ps.filter(is_file_part())).len() == 0,
    decreases ps.len(),
{
    let f = |p: PartView| (p.name, decode_utf8(p.data));
    if ps.len() == 0 {
        assert(ps.filter(gives_field()) =~= Seq::<PartView>::empty());
        assert(ps.filter(gives_field()).map_values(f) =~= Seq::<(Seq<char>, Seq<char>)>::empty());
        assert(ps.filter(is_file_part()) =~= Seq::<PartView>::empty());
    } else {
        let rest = ps.drop_first();
        lemma_fields_are_plain_parts(rest);
        assert(ps =~= seq![ps[0]] + rest);
        lemma_filter_cons(ps[0], rest, gives_field());
        let head = if gives_field()(ps[0]) { seq![ps[0]] } else { Seq::<PartView>::empty() };
        assert((head + rest.filter(gives_field())).map_values(f) =~= head.map_values(f) + rest.filter(gives_field()).map_values(f));
        if gives_field()(ps[0]) {
            assert(head.map_values(f) =~= seq![(ps[0].name, decode_utf8(ps[0].data))]);
        } else {
            assert(head.map_values(f) =~= Seq::<(Seq<char>, Seq<char>)>::empty());
        }
        lemma_files_give_no_field(ps.filter(is_file_part()));
    }
}

proof fn lemma_files_give_no_field(qs: Seq<PartView>)
    requires
        forall|i: int| 0 <= i < qs.len() ==> (#[trigger] qs[i]).filename is Some,
    ensures
        fields_of(qs).len() == 0,
    decreases qs.len(),
{
    if qs.len() > 0 {
        assert forall|i: int| 0 <= i < qs.drop_first().len() implies (#[trigger] qs.drop_first()[i]).filename is Some by {
            assert(qs.drop_first()[i] == qs[i + 1]);
        }
        lemma_files_give_no_field(qs.drop_first());
    }
}

pub open spec fn uploads_view(v: Seq<UploadFile>) -> Seq<UploadFileView> {
    v.map_values(|u: UploadFile| u@)
}

/// Parsed multipart form data.
#[derive(Debug)]
pub struct MultipartForm {
    parts: Vec<Part>,
    spool_threshold: usize,
}

/// The parts and spool threshold of a [`MultipartForm`].
pub struct MultipartFormView {
    pub parts: Seq<PartView>,
    pub spool_threshold: usize,
}

impl View for MultipartForm {
    type V = MultipartFormView;

    closed spec fn view(&self) -> MultipartFormView {
        MultipartFormView { parts: parts_view(self.parts@), spool_threshold: self.spool_threshold }
    }
}

impl Default for MultipartForm {
    fn default() -> (f: Self)
        ensures
            f@.parts == Seq::<PartView>::empty(),
            f@.spool_threshold == DEFAULT_SPOOL_THRESHOLD,
    {
        let parts: Vec<Part> = Vec::new();
        assert(parts_view(parts@) =~= Seq::<PartView>::empty());
        MultipartForm { parts, spool_threshold: DEFAULT_SPOOL_THRESHOLD }
    }
}

impl MultipartForm {
    /// An empty form.
    pub fn new() -> (f: Self)
        ensures
            f@.parts == Seq::<PartView>::empty(),
            f@.spool_threshold == DEFAULT_SPOOL_THRESHOLD,
    {
        Self::default()
    }

    /// A form of these parts.
    pub fn from_parts(parts: Vec<Part>) -> (f: Self)
        ensures
            f@.parts == parts_view(parts@),
            f@.spool_threshold == DEFAULT_SPOOL_THRESHOLD,
    {
        MultipartForm { parts, spool_threshold: DEFAULT_SPOOL_THRESHOLD }
    }

    /// A form of these parts with a custom spool threshold.
    pub fn from_parts_with_spool_threshold(parts: Vec<Part>, spool_threshold: usize) -> (f: Self)
        ensures
            f@.parts == parts_view(parts@),
            f@.spool_threshold == spool_threshold,
    {
        MultipartForm { parts, spool_threshold }
    }

    /// All parts.
    pub fn parts(&self) -> (r: &[Part])
        ensures
            parts_view(r@) == self@.parts,
    {
        self.parts.as_slice()
    }

    /// The parts, taken out of the form.
    pub fn into_parts(self) -> (r: Vec<Part>)
        ensures
            parts_view(r@) == self@.parts,
    {
        self.parts
    }

    fn find(&self, name: &str, file: bool) -> (r: Option<usize>)
        ensures
            match find_part(self@.parts, name@, file, 0) {
                Some(i) => r == Some(i as usize),
                None => r is None,
            },
    {
        let mut i: usize = 0;
        while i < self.parts.len()
            invariant
                i <= self.parts.len(),
                find_part(self@.parts, name@, file, 0) == find_part(self@.parts, name@, file, i as int),
            decreases self.parts.len() - i,
        {
            assert(self@.parts[i as int] == self.parts@[i as int]@);
            let p = &self.parts[i];
            if crate::text::str_eq(p.name.as_str(), name) && p.filename.is_some() == file {
                return Some(i);
            }
            i += 1;
        }
        None
    }

    /// The text of the first plain field named `name`, if it is valid UTF-8.
    pub fn get_field(&self, name: &str) -> (r: Option<&str>)
        ensures
            match find_part(self@.parts, name@, false, 0) {
                Some(i) => if valid_utf8(self@.parts[i].data) {
                    (r matches Some(s) && s@ == decode_utf8(self@.parts[i].data))
                } else {
                    r is None
                },
                None => r is None,
            },
    {
        let n = self.parts.len();
        proof {
            lemma_find_part_bounds(self@.parts, name@, false, 0);
        }
        match self.find(name, false) {
            Some(i) => {
                assert(self@.parts[i as int] == self.parts@[i as int]@);
                self.parts[i].text()
            },
            None => None,
        }
    }

    fn upload_from_borrowed_part(part: &Part, spool_threshold: usize) -> (r: Option<UploadFile>)
        ensures
            match upload_of(part@, spool_threshold) {
                Some(u) => (r matches Some(f) && f@ == u),
                None => r is None,
            },
    {
        UploadFile::from_part_with_spool_threshold(part.duplicate(), spool_threshold)
    }

    /// The upload of the first file part named `name`.
    pub fn get_file(&self, name: &str) -> (r: Option<UploadFile>)
        ensures
            match find_part(self@.parts, name@, true, 0) {
                Some(i) => (r matches Some(f) && f@ == upload_of(self@.parts[i], self@.spool_threshold).unwrap()),
                None => r is None,
            },
    {
        let n = self.parts.len();
        proof {
            lemma_find_part_bounds(self@.parts, name@, true, 0);
        }
        match self.find(name, true) {
            Some(i) => {
                assert(self@.parts[i as int] == self.parts@[i as int]@);
                Self::upload_from_borrowed_part(&self.parts[i], self.spool_threshold)
            },
            None => None,
        }
    }

    /// Removes the first file part named `name` and returns its upload; the
    /// last part takes its place.
    pub fn take_file(&mut self, name: &str) -> (r: Option<UploadFile>)
        ensures
            final(self)@.spool_threshold == old(self)@.spool_threshold,
            match find_part(old(self)@.parts, name@, true, 0) {
                Some(i) => (r matches Some(f) && f@ == upload_of(old(self)@.parts[i], old(self)@.spool_threshold).unwrap())
                    && final(self)@.parts == old(self)@.parts.update(i, old(self)@.parts.last()).drop_last(),
                None => r is None && final(self)@ == old(self)@,
            },
    {
        let n = self.parts.len();
        proof {
            lemma_find_part_bounds(self@.parts, name@, true, 0);
        }
        match self.find(name, true) {
            Some(i) => {
                let ghost before = self.parts@;
                let part = self.parts.swap_remove(i);
                assert(parts_view(self.parts@) =~= parts_view(before).update(i as int, parts_view(before).last()).drop_last());
                UploadFile::from_part_with_spool_threshold(part, self.spool_threshold)
            },
            None => None,
        }
    }

    fn uploads(&self, name: Option<&str>) -> (r: Vec<UploadFile>)
        ensures
            uploads_view(r@) == uploads_of(self@.parts, match name { Some(n) => Some(n@), None => None::<Seq<char>> }, self@.spool_threshold),
    {
        let ghost nm = match name { Some(n) => Some(n@), None => None::<Seq<char>> };
        let mut out: Vec<UploadFile> = Vec::new();
        let mut i: usize = self.parts.len();
        assert(self@.parts.skip(self.parts.len() as int) =~= Seq::<PartView>::empty());
        let mut acc: Vec<UploadFile> = Vec::new();
        // collect from the back so that each step prepends
        while i > 0
            invariant
                i <= self.parts.len(),
                nm == match name { Some(n) => Some(n@), None => None::<Seq<char>> },
                uploads_view(acc@).reverse() == uploads_of(self@.parts.skip(i as int), nm, self@.spool_threshold),
            decreases i,
        {
            i -= 1;
            let p = &self.parts[i];
            let ghost rest = self@.parts.skip(i + 1);
            assert(self@.parts.skip(i as int).drop_first() == rest);
            assert(self@.parts.skip(i as int)[0] == p@);
            let wanted = p.filename.is_some() && match name {
                Some(n) => crate::text::str_eq(p.name.as_str(), n),
                None => true,
            };
            if wanted {
                let u = Self::upload_from_borrowed_part(p, self.spool_threshold);
                match u {
                    Some(f) => {
                        let ghost before = uploads_view(acc@);
                        acc.push(f);
                        assert(uploads_view(acc@) =~= before.push(f@));
                        assert(uploads_view(acc@).reverse() =~= seq![f@] + before.reverse());
                    },
                    None => {},
                }
            }
        }
        assert(self@.parts.skip(0) == self@.parts);
        while acc.len() > 0
            invariant
                nm == match name { Some(n) => Some(n@), None => None::<Seq<char>> },
                uploads_view(out@) + uploads_view(acc@).reverse() == uploads_of(self@.parts, nm, self@.spool_threshold),
            decreases acc.len(),
        {
            let ghost before_acc = uploads_view(acc@);
            let ghost before_out = uploads_view(out@);
            let f = acc.pop().unwrap();
            out.push(f);
            assert(uploads_view(out@) =~= before_out.push(f@));
            assert(before_acc =~= uploads_view(acc@).push(f@));
            assert(before_acc.reverse() =~= seq![f@] + uploads_view(acc@).reverse());
            assert(before_out + before_acc.reverse() =~= uploads_view(out@) + uploads_view(acc@).reverse());
        }
        assert(uploads_view(acc@).reverse() =~= Seq::<UploadFileView>::empty());
        assert(uploads_view(out@) + Seq::<UploadFileView>::empty() == uploads_view(out@));
        out
    }

    /// The uploads of all file parts, in order.
    pub fn files(&self) -> (r: Vec<UploadFile>)
        ensures
            uploads_view(r@) == uploads_of(self@.parts, None, self@.spool_threshold),
    {
        self.uploads(None)
    }

    /// The uploads of all file parts, taken out of the form.
    pub fn into_files(self) -> (r: Vec<UploadFile>)
        ensures
            uploads_view(r@) == uploads_of(self@.parts, None, self@.spool_threshold),
    {
        self.uploads(None)
    }

    /// The uploads of the file parts named `name`, in order.
    pub fn get_files(&self, name: &str) -> (r: Vec<UploadFile>)
        ensures
            uploads_view(r@) == uploads_of(self@.parts, Some(name@), self@.spool_threshold),
    {
        self.uploads(Some(name))
    }

    /// The plain fields whose content is valid UTF-8, as (name, text).
    pub fn fields(&self) -> (r: Vec<(&str, &str)>)
        ensures
            crate::query::pairs_view(r@) == fields_of(self@.parts),
    {
        let mut acc: Vec<(&str, &str)> = Vec::new();
        let mut i: usize = self.parts.len();
        assert(self@.parts.skip(self.parts.len() as int) =~= Seq::<PartView>::empty());
        while i > 0
            invariant
                i <= self.parts.len(),
                crate::query::pairs_view(acc@).reverse() == fields_of(self@.parts.skip(i as int)),
            decreases i,
        {
            i -= 1;
            let p = &self.parts[i];
            assert(self@.parts.skip(i as int).drop_first() == self@.parts.skip(i + 1));
            assert(self@.parts.skip(i as int)[0] == p@);
            if p.filename.is_none() {
                match p.text() {
                    Some(text) => {
                        let ghost before = crate::query::pairs_view(acc@);
                        acc.push((p.name.as_str(), text));
                        assert(crate::query::pairs_view(acc@) =~= before.push((p.name@, text@)));
                        assert(crate::query::pairs_view(acc@).reverse() =~= seq![(p.name@, text@)] + before.reverse());
                    },
                    None => {},
                }
            }
        }
        assert(self@.parts.skip(0) == self@.parts);
        let mut out: Vec<(&str, &str)> = Vec::new();
        while acc.len() > 0
            invariant
                crate::query::pairs_view(out@) + crate::query::pairs_view(acc@).reverse() == fields_of(self@.parts),
            decreases acc.len(),
        {
            let ghost before_acc = crate::query::pairs_view(acc@);
            let ghost before_out = crate::query::pairs_view(out@);
            let f = acc.pop().unwrap();
            out.push(f);
            assert(crate::query::pairs_view(out@) =~= before_out.push(crate::query::pair_view(f)));
            assert(before_acc =~= crate::query::pairs_view(acc@).push(crate::query::pair_view(f)));
            assert(before_acc.reverse() =~= seq![crate::query::pair_view(f)] + crate::query::pairs_view(acc@).reverse());
            assert(before_out + before_acc.reverse() =~= crate::query::pairs_view(out@) + crate::query::pairs_view(acc@).reverse());
        }
        assert(crate::query::pairs_view(acc@).reverse() =~= Seq::<(Seq<char>, Seq<char>)>::empty());
        assert(crate::query::pairs_view(out@) + Seq::<(Seq<char>, Seq<char>)>::empty() == crate::query::pairs_view(out@));
        out
    }

    /// Some part is named `name`.
    pub fn has_field(&self, name: &str) -> (r: bool)
        ensures
            r == exists|i: int| 0 <= i < self@.parts.len() && (#[trigger] self@.parts[i]).name == name@,
    {
        let mut i: usize = 0;
        while i < self.parts.len()
            invariant
                i <= self.parts.len(),
                forall|j: int| 0 <= j < i ==> (#[trigger] self@.parts[j]).name != name@,
            decreases self.parts.len() - i,
        {
            assert(self@.parts[i as int] == self.parts@[i as int]@);
            if crate::text::str_eq(self.parts[i].name.as_str(), name) {
                return true;
            }
            i += 1;
        }
        false
    }

    /// The number of parts.
    pub fn len(&self) -> (r: usize)
        ensures
            r == self@.parts.len(),
    {
        self.parts.len()
    }

    /// The form has no parts.
    pub fn is_empty(&self) -> (r: bool)
        ensures
            r == (self@.parts.len() == 0),
    {
        self.parts.len() == 0
    }
}

pub proof fn lemma_find_part_bounds(ps: Seq<PartView>, name: Seq<char>, file: bool, from: int)
    ensures
        find_part(ps, name, file, from) matches Some(i) ==> from <= i < ps.len() && ps[i].name == name
            && (ps[i].filename is Some) == file,
    decreases ps.len() - from,
{
    if from >= 0 && from < ps.len() && !(ps[from].name == name && (ps[from].filename is Some) == file) {
        lemma_find_part_bounds(ps, name, file, from + 1);
    }
}

} // verus!

//! Resume attachments: the records and views of uploaded files, the upload
//! rules, the digest and download headers.
use sha2::Digest;
use vstd::prelude::*;
use vstd::string::StringSliceAdditionalSpecFns;
use vstd::utf8::encode_utf8;

use crate::error::{AppError, AppErrorView};
use crate::extract::{detect_kind, kind_label as label_of_kind, lowercase, AttachmentKind};
use crate::text::{chars_of, concat, string_of, string_of_range};

verus! {

/// Largest accepted upload, in bytes (10 MiB).
pub const MAX_FILE_BYTES: u64 = 10485760;

/// Most attachments one session may hold.
pub const MAX_ATTACHMENTS_PER_SESSION: i64 = 5;

/// Characters of extracted text shown as a preview.
pub const PREVIEW_CHARS: usize = 1000;

/// A stored attachment.
#[derive(Debug, Clone)]
pub struct AttachmentRow {
    pub id: String,
    pub session_id: String,
    pub filename: String,
    pub mime_type: String,
    pub size_bytes: i64,
    pub storage_path: String,
    pub extract_status: String,
    pub extract_error: Option<String>,
    pub sha256: String,
    pub created_at: String,
}

/// An attachment as listed.
#[derive(Debug, Clone)]
pub struct AttachmentSummary {
    pub id: String,
    pub session_id: String,
    pub filename: String,
    pub mime_type: String,
    pub size_bytes: i64,
    pub kind: &'static str,
    pub extract_status: String,
    pub extract_error: Option<String>,
    pub text_chars: usize,
    pub created_at: String,
}

/// An attachment with a preview of its text; `text_chars` counts the whole
/// text.
#[derive(Debug, Clone)]
pub struct AttachmentDetail {
    pub summary: AttachmentSummary,
    pub text_preview: String,
}

/// A stored attachment with the length of its extracted text.
#[derive(Debug, Clone)]
pub struct AttachmentListRow {
    pub id: String,
    pub session_id: String,
    pub filename: String,
    pub mime_type: String,
    pub size_bytes: i64,
    pub storage_path: String,
    pub extract_status: String,
    pub extract_error: Option<String>,
    pub sha256: String,
    pub created_at: String,
    pub text_chars: i64,
}

/// Label of the detected format, `其他` when none is detected.
pub open spec fn kind_text(filename: Seq<char>, mime: Seq<char>) -> Seq<char> {
    match detect_kind(lowercase(filename), mime) {
        Some(k) => label_of_kind(k),
        None => "其他"@,
    }
}

/// The format label shown for a file (see [`kind_text`]).
pub fn kind_label(filename: &str, mime: &str) -> (s: &'static str)
    ensures
        s@ == kind_text(filename@, mime@),
{
    match AttachmentKind::detect(filename, mime) {
        Some(k) => k.label(),
        None => "其他",
    }
}

pub open spec fn opt_view(o: Option<String>) -> Option<Seq<char>> {
    match o {
        Some(s) => Some(s@),
        None => None,
    }
}

impl AttachmentSummary {
    /// The summary carries the row's fields, the detected format and the
    /// given text length.
    pub open spec fn describes(&self, row: AttachmentRow, text_chars: usize) -> bool {
        &&& self.id@ == row.id@
        &&& self.session_id@ == row.session_id@
        &&& self.filename@ == row.filename@
        &&& self.mime_type@ == row.mime_type@
        &&& self.size_bytes == row.size_bytes
        &&& self.kind@ == kind_text(row.filename@, row.mime_type@)
        &&& self.extract_status@ == row.extract_status@
        &&& opt_view(self.extract_error) == opt_view(row.extract_error)
        &&& self.text_chars == text_chars
        &&& self.created_at@ == row.created_at@
    }
}

fn clone_opt(o: &Option<String>) -> (r: Option<String>)
    ensures
        opt_view(r) == opt_view(*o),
{
    match o {
        Some(s) => Some(s.clone()),
        None => None,
    }
}

/// The summary of a stored attachment.
pub fn summary(row: &AttachmentRow, text_chars: usize) -> (s: AttachmentSummary)
    ensures
        s.describes(*row, text_chars),
{
    AttachmentSummary {
        id: row.id.clone(),
        session_id: row.session_id.clone(),
        filename: row.filename.clone(),
        mime_type: row.mime_type.clone(),
        size_bytes: row.size_bytes,
        kind: kind_label(row.filename.as_str(), row.mime_type.as_str()),
        extract_status: row.extract_status.clone(),
        extract_error: clone_opt(&row.extract_error),
        text_chars,
        created_at: row.created_at.clone(),
    }
}

impl AttachmentListRow {
    /// The stored fields without the text length.
    pub open spec fn row(&self) -> AttachmentRow {
        AttachmentRow {
            id: self.id,
            session_id: self.session_id,
            filename: self.filename,
            mime_type: self.mime_type,
            size_bytes: self.size_bytes,
            storage_path: self.storage_path,
            extract_status: self.extract_status,
            extract_error: self.extract_error,
            sha256: self.sha256,
            created_at: self.created_at,
        }
    }

    /// The summary of a listed attachment; a negative length counts as 0.
    pub fn into_summary(self) -> (s: AttachmentSummary)
        ensures
            s.describes(self.row(), (if self.text_chars < 0 { 0 } else { self.text_chars }) as usize),
    {
        let row = AttachmentRow {
            id: self.id,
            session_id: self.session_id,
            filename: self.filename,
            mime_type: self.mime_type,
            size_bytes: self.size_bytes,
            storage_path: self.storage_path,
            extract_status: self.extract_status,
            extract_error: self.extract_error,
            sha256: self.sha256,
            created_at: self.created_at,
        };
        let n: i64 = if self.text_chars < 0 {
            0
        } else {
            self.text_chars
        };
        summary(&row, n as usize)
    }
}

impl AttachmentDetail {
    /// The detail of a stored attachment: its summary with the character
    /// count of the whole text, and the first 1000 characters as a preview.
    pub fn of(row: &AttachmentRow, extracted_text: &str) -> (d: Self)
        ensures
            d.summary.describes(*row, extracted_text@.len() as usize),
            d.text_preview@ == extracted_text@.take(
                if extracted_text@.len() < PREVIEW_CHARS {
                    extracted_text@.len() as int
                } else {
                    PREVIEW_CHARS as int
                },
            ),
    {
        let v = chars_of(extracted_text);
        let n: usize = if v.len() < PREVIEW_CHARS {
            v.len()
        } else {
            PREVIEW_CHARS
        };
        let preview = string_of_range(v.as_slice(), 0, n);
        proof {
            assert(v@.subrange(0, n as int) =~= v@.take(n as int));
        }
        AttachmentDetail { summary: summary(row, v.len()), text_preview: preview }
    }
}

// ---------------------------------------------------------------------------
// Download header
// ---------------------------------------------------------------------------
/// Bytes kept as they are in a `filename*` value: ASCII letters and digits
/// and `- _ . ~`.
pub open spec fn is_unreserved(b: u8) -> bool {
    ||| 0x30 <= b <= 0x39
    ||| 0x41 <= b <= 0x5a
    ||| 0x61 <= b <= 0x7a
    ||| b == 0x2d
    ||| b == 0x5f
    ||| b == 0x2e
    ||| b == 0x7e
}

pub open spec fn upper_hex(d: nat) -> char {
    seq!['0', '1', '2', '3', '4', '5', '6', '7', '8', '9', 'A', 'B', 'C', 'D', 'E', 'F'][d as int]
}

pub open spec fn encode_byte(b: u8) -> Seq<char> {
    if is_unreserved(b) {
        seq![b as char]
    } else {
        seq!['%', upper_hex((b / 16) as nat), upper_hex((b % 16) as nat)]
    }
}

/// RFC 5987 encoding of UTF-8 bytes: unreserved bytes as they are, every
/// other byte as `%XX` with upper-case hex digits.
pub open spec fn percent_encoded(bytes: Seq<u8>) -> Seq<char>
    decreases bytes.len(),
{
    if bytes.len() == 0 {
        Seq::empty()
    } else {
        percent_encoded(bytes.drop_last()) + encode_byte(bytes.last())
    }
}

/// A character that may stand in a `filename*` value as it is.
pub open spec fn header_safe(c: char) -> bool {
    ||| ('0' <= c <= '9')
    ||| ('A' <= c <= 'Z')
    ||| ('a' <= c <= 'z')
    ||| c == '-'
    ||| c == '_'
    ||| c == '.'
    ||| c == '~'
    ||| c == '%'
}

/// Whatever the file name, its encoded form holds only ASCII letters,
/// digits, `- _ . ~` and `%`: no space, quote, semicolon, control or
/// non-ASCII character reaches the header.
pub proof fn law_percent_encoding_is_header_safe(bytes: Seq<u8>)
    ensures
        forall|i: int|
            0 <= i < percent_encoded(bytes).len() ==> header_safe(#[trigger] percent_encoded(bytes)[i]),
    decreases bytes.len(),
{
    if bytes.len() > 0 {
        law_percent_encoding_is_header_safe(bytes.drop_last());
        let front = percent_encoded(bytes.drop_last());
        let b = bytes.last();
        let e = encode_byte(b);
        assert forall|j: int| 0 <= j < e.len() implies header_safe(#[trigger] e[j]) by {
            if is_unreserved(b) {
                assert(e[j] == b as char);
            } else {
                let hi = (b / 16) as nat;
                let lo = (b % 16) as nat;
                assert(hi < 16 && lo < 16);
            }
        }
        assert forall|i: int| 0 <= i < percent_encoded(bytes).len() implies header_safe(
            #[trigger] percent_encoded(bytes)[i],
        ) by {
            if i < front.len() {
                assert(percent_encoded(bytes)[i] == front[i]);
            } else {
                assert(percent_encoded(bytes)[i] == e[i - front.len()]);
            }
        }
    }
}

/// Value of an upper-case hex digit.
pub open spec fn hex_value(c: char) -> nat {
    if '0' <= c <= '9' {
        (c as u32 - '0' as u32) as nat
    } else {
        (c as u32 - 'A' as u32 + 10) as nat
    }
}

pub open spec fn is_upper_hex(c: char) -> bool {
    ('0' <= c <= '9') || ('A' <= c <= 'F')
}

/// Percent-decoding: `%XX` is the byte `XX`, any other character its own
/// code (as a byte).
pub open spec fn percent_decoded(s: Seq<char>) -> Seq<u8>
    decreases s.len(),
{
    if s.len() == 0 {
        Seq::empty()
    } else if s[0] == '%' && s.len() >= 3 {
        seq![(hex_value(s[1]) * 16 + hex_value(s[2])) as u8] + percent_decoded(s.skip(3))
    } else {
        seq![(s[0] as u32) as u8] + percent_decoded(s.skip(1))
    }
}

/// Length of the encoding: one character per unreserved byte, three per
/// other byte.
pub open spec fn encoded_len(bytes: Seq<u8>) -> nat
    decreases bytes.len(),
{
    if bytes.len() == 0 {
        0
    } else {
        encoded_len(bytes.drop_last()) + if is_unreserved(bytes.last()) {
            1nat
        } else {
            3nat
        }
    }
}

proof fn lemma_hex_digit(d: nat)
    requires
        d < 16,
    ensures
        is_upper_hex(upper_hex(d)),
        hex_value(upper_hex(d)) == d,
{
    let h = seq!['0', '1', '2', '3', '4', '5', '6', '7', '8', '9', 'A', 'B', 'C', 'D', 'E', 'F'];
    assert(upper_hex(d) == h[d as int]);
    if d == 0 {} else if d == 1 {} else if d == 2 {} else if d == 3 {} else if d == 4 {} else if d == 5 {
    } else if d == 6 {} else if d == 7 {} else if d == 8 {} else if d == 9 {} else if d == 10 {
    } else if d == 11 {} else if d == 12 {} else if d == 13 {} else if d == 14 {} else {}
}

proof fn lemma_decode_byte(b: u8, rest: Seq<char>)
    ensures
        percent_decoded(encode_byte(b) + rest) == seq![b] + percent_decoded(rest),
{
    let e = encode_byte(b);
    let s = e + rest;
    if is_unreserved(b) {
        assert(s[0] == b as char);
        assert(s[0] != '%');
        assert(s.skip(1) =~= rest);
        assert(((b as char) as u32) as u8 == b);
    } else {
        let hi = (b / 16) as nat;
        let lo = (b % 16) as nat;
        lemma_hex_digit(hi);
        lemma_hex_digit(lo);
        assert(s[0] == '%' && s[1] == upper_hex(hi) && s[2] == upper_hex(lo));
        assert(s.skip(3) =~= rest);
        assert((hi * 16 + lo) as u8 == b);
    }
}

proof fn lemma_encoded_front(bytes: Seq<u8>)
    requires
        bytes.len() > 0,
    ensures
        percent_encoded(bytes) == encode_byte(bytes[0]) + percent_encoded(bytes.drop_first()),
    decreases bytes.len(),
{
    if bytes.len() == 1 {
        assert(bytes.drop_last() =~= Seq::<u8>::empty());
        assert(bytes.drop_first() =~= Seq::<u8>::empty());
        assert(encode_byte(bytes[0]) + Seq::<char>::empty() =~= encode_byte(bytes[0]));
    } else {
        lemma_encoded_front(bytes.drop_last());
        assert(bytes.drop_last().drop_first() =~= bytes.drop_first().drop_last());
        assert(bytes.drop_first().last() == bytes.last());
        assert(bytes.drop_last()[0] == bytes[0]);
        let a = encode_byte(bytes[0]);
        let m = percent_encoded(bytes.drop_first().drop_last());
        let z = encode_byte(bytes.last());
        assert((a + m) + z =~= a + (m + z));
    }
}

/// Percent-encoding loses nothing: decoding the encoded name gives its
/// bytes back. Every `%` starts an escape of two upper-case hex digits, and
/// the encoding takes one character per unreserved byte and three per
/// other byte.
pub proof fn law_percent_encoding_round_trip(bytes: Seq<u8>)
    ensures
        percent_decoded(percent_encoded(bytes)) == bytes,
        percent_encoded(bytes).len() == encoded_len(bytes),
        forall|i: int|
            0 <= i < percent_encoded(bytes).len() && #[trigger] percent_encoded(bytes)[i] == '%' ==> i + 2
                < percent_encoded(bytes).len() && is_upper_hex(percent_encoded(bytes)[i + 1])
                && is_upper_hex(percent_encoded(bytes)[i + 2]),
    decreases bytes.len(),
{
    if bytes.len() == 0 {
        assert(percent_decoded(Seq::<char>::empty()) =~= Seq::<u8>::empty());
    } else {
        law_percent_encoding_round_trip(bytes.drop_first());
        law_percent_encoding_round_trip(bytes.drop_last());
        lemma_encoded_front(bytes);
        lemma_decode_byte(bytes[0], percent_encoded(bytes.drop_first()));
        assert(seq![bytes[0]] + bytes.drop_first() =~= bytes);
        let front = percent_encoded(bytes.drop_last());
        let b = bytes.last();
        let e = encode_byte(b);
        let out = percent_encoded(bytes);
        assert(out == front + e);
        if !is_unreserved(b) {
            lemma_hex_digit((b / 16) as nat);
            lemma_hex_digit((b % 16) as nat);
        }
        assert forall|i: int|
            0 <= i < out.len() && #[trigger] out[i] == '%' implies i + 2 < out.len() && is_upper_hex(out[i + 1])
                && is_upper_hex(out[i + 2]) by {
            if i < front.len() {
                assert(out[i] == front[i]);
                assert(front[i] == '%');
                assert(out[i + 1] == front[i + 1] && out[i + 2] == front[i + 2]);
            } else {
                assert(out[i] == e[i - front.len()]);
                if is_unreserved(b) {
                    assert(e[0] == b as char);
                } else {
                    assert(i - front.len() == 0);
                    assert(out[i + 1] == e[1] && out[i + 2] == e[2]);
                }
            }
        }
    }
}

fn hex_upper_digit(d: u8) -> (c: char)
    requires
        d < 16,
    ensures
        c == upper_hex(d as nat),
{
    let digits: [char; 16] = ['0', '1', '2', '3', '4', '5', '6', '7', '8', '9', 'A', 'B', 'C', 'D', 'E', 'F'];
    assert(digits@ =~= seq!['0', '1', '2', '3', '4', '5', '6', '7', '8', '9', 'A', 'B', 'C', 'D', 'E', 'F']);
    digits[d as usize]
}

/// Percent-encodes the UTF-8 bytes of a file name (see [`percent_encoded`]).
pub fn percent_encode(input: &str) -> (out: String)
    ensures
        out@ == percent_encoded(encode_utf8(input@)),
{
    let bytes = input.as_bytes();
    let mut out: Vec<char> = Vec::new();
    let mut i: usize = 0;
    while i < bytes.len()
        invariant
            i <= bytes@.len(),
            bytes@ == encode_utf8(input@),
            out@ == percent_encoded(bytes@.take(i as int)),
        decreases bytes.len() - i,
    {
        let c = bytes[i];
        proof {
            assert(bytes@.take(i + 1).drop_last() =~= bytes@.take(i as int));
            assert(bytes@.take(i + 1).last() == c);
        }
        let safe = (0x30 <= c && c <= 0x39) || (0x41 <= c && c <= 0x5a) || (0x61 <= c && c <= 0x7a)
            || c == 0x2d || c == 0x5f || c == 0x2e || c == 0x7e;
        if safe {
            out.push(c as char);
            assert(out@ =~= percent_encoded(bytes@.take(i + 1)));
        } else {
            out.push('%');
            out.push(hex_upper_digit(c / 16));
            out.push(hex_upper_digit(c % 16));
            assert(out@ =~= percent_encoded(bytes@.take(i + 1)));
        }
        i = i + 1;
    }
    assert(bytes@.take(bytes@.len() as int) =~= bytes@);
    string_of(out.as_slice())
}

/// `attachment; filename*=UTF-8''` followed by the encoded file name.
pub fn content_disposition(filename: &str) -> (h: String)
    ensures
        h@ == "attachment; filename*=UTF-8''"@ + percent_encoded(encode_utf8(filename@)),
{
    let encoded = percent_encode(filename);
    concat("attachment; filename*=UTF-8''", encoded.as_str())
}

// ---------------------------------------------------------------------------
// Digest
// ---------------------------------------------------------------------------
/// What `sha2::Sha256::digest` gives for `bytes`.
pub uninterp spec fn sha256(bytes: Seq<u8>) -> Seq<u8>;

/// `sha2::Sha256::digest`. The hash function is not spelled out; the result
/// is named, and it is 32 bytes long (SHA-256's output size).
#[verifier::external_body]
fn sha256_digest(bytes: &[u8]) -> (d: Vec<u8>)
    ensures
        d@ == sha256(bytes@),
        d@.len() == 32,
{
    sha2::Sha256::digest(bytes).to_vec()
}

pub open spec fn lower_hex(d: nat) -> char {
    seq!['0', '1', '2', '3', '4', '5', '6', '7', '8', '9', 'a', 'b', 'c', 'd', 'e', 'f'][d as int]
}

/// Bytes as lower-case hex, two digits each.
pub open spec fn hex_lower(bytes: Seq<u8>) -> Seq<char>
    decreases bytes.len(),
{
    if bytes.len() == 0 {
        Seq::empty()
    } else {
        hex_lower(bytes.drop_last()) + seq![
            lower_hex((bytes.last() / 16) as nat),
            lower_hex((bytes.last() % 16) as nat),
        ]
    }
}

fn hex_lower_digit(d: u8) -> (c: char)
    requires
        d < 16,
    ensures
        c == lower_hex(d as nat),
{
    let digits: [char; 16] = ['0', '1', '2', '3', '4', '5', '6', '7', '8', '9', 'a', 'b', 'c', 'd', 'e', 'f'];
    assert(digits@ =~= seq!['0', '1', '2', '3', '4', '5', '6', '7', '8', '9', 'a', 'b', 'c', 'd', 'e', 'f']);
    digits[d as usize]
}

/// Lower-case hex of bytes (see [`hex_lower`]).
pub fn to_hex_lower(bytes: &[u8]) -> (s: String)
    ensures
        s@ == hex_lower(bytes@),
{
    let mut out: Vec<char> = Vec::new();
    let mut i: usize = 0;
    while i < bytes.len()
        invariant
            i <= bytes@.len(),
            out@ == hex_lower(bytes@.take(i as int)),
        decreases bytes.len() - i,
    {
        let c = bytes[i];
        proof {
            assert(bytes@.take(i + 1).drop_last() =~= bytes@.take(i as int));
            assert(bytes@.take(i + 1).last() == c);
        }
        out.push(hex_lower_digit(c / 16));
        out.push(hex_lower_digit(c % 16));
        assert(out@ =~= hex_lower(bytes@.take(i + 1)));
        i = i + 1;
    }
    assert(bytes@.take(bytes@.len() as int) =~= bytes@);
    string_of(out.as_slice())
}

/// The SHA-256 of a file as lower-case hex (64 characters).
pub fn sha256_hex(bytes: &[u8]) -> (s: String)
    ensures
        s@ == hex_lower(sha256(bytes@)),
{
    let d = sha256_digest(bytes);
    to_hex_lower(d.as_slice())
}

// ---------------------------------------------------------------------------
// Upload rules
// ---------------------------------------------------------------------------
pub open spec fn too_many_message() -> Seq<char> {
    "每个对话最多上传 5 个简历附件，请先删除旧的"@
}

fn text_of(s: &str) -> (r: String)
    ensures
        r@ == s@,
{
    string_of(chars_of(s).as_slice())
}

/// A session that already holds the maximum number of attachments takes no
/// more.
pub fn check_attachment_count(count: i64) -> (r: Result<(), AppError>)
    ensures
        r is Ok <==> count < MAX_ATTACHMENTS_PER_SESSION,
        r matches Err(e) ==> e@ == AppErrorView::BadRequest(too_many_message()),
{
    if count >= MAX_ATTACHMENTS_PER_SESSION {
        return Err(AppError::BadRequest(text_of("每个对话最多上传 5 个简历附件，请先删除旧的")));
    }
    Ok(())
}

/// Only the multipart field named `file` is read; others are skipped.
pub fn is_file_field(name: Option<&str>) -> (r: bool)
    ensures
        r == (name matches Some(n) && n@ == "file"@),
{
    match name {
        Some(n) => {
            let v = chars_of(n);
            let f = chars_of("file");
            crate::text::chars_eq(v.as_slice(), f.as_slice())
        },
        None => false,
    }
}

/// File name and content type of the uploaded field, with defaults
/// `resume` and `application/octet-stream`.
pub fn file_field_meta(file_name: Option<&str>, content_type: Option<&str>) -> (r: (String, String))
    ensures
        r.0@ == match file_name {
            Some(f) => f@,
            None => "resume"@,
        },
        r.1@ == match content_type {
            Some(c) => c@,
            None => "application/octet-stream"@,
        },
{
    let name = match file_name {
        Some(f) => text_of(f),
        None => text_of("resume"),
    };
    let mime = match content_type {
        Some(c) => text_of(c),
        None => text_of("application/octet-stream"),
    };
    (name, mime)
}

/// The file's content is refused when larger than 10 MiB or empty.
pub fn check_file_size(len: usize) -> (r: Result<(), AppError>)
    ensures
        r is Ok <==> (len as int <= MAX_FILE_BYTES && len > 0),
        len as int > MAX_FILE_BYTES ==> (r matches Err(e) && e@ == AppErrorView::BadRequest(
            "文件超过 10 MB 上限"@,
        )),
        len == 0 ==> (r matches Err(e) && e@ == AppErrorView::BadRequest("文件为空"@)),
{
    if len as u64 > MAX_FILE_BYTES {
        return Err(AppError::BadRequest(text_of("文件超过 10 MB 上限")));
    }
    if len == 0 {
        return Err(AppError::BadRequest(text_of("文件为空")));
    }
    Ok(())
}

/// What the upload found in the multipart body.
pub struct UploadParts {
    pub filename: Option<String>,
    pub mime: Option<String>,
    pub bytes: Option<Vec<u8>>,
}

/// An accepted upload.
pub struct UploadPlan {
    pub filename: String,
    pub mime: String,
    pub bytes: Vec<u8>,
    pub kind: AttachmentKind,
}

/// Accepts the uploaded file: a `file` field must have been found, and its
/// format must be one the extractor understands.
pub fn plan_upload(parts: UploadParts) -> (r: Result<UploadPlan, AppError>)
    ensures
        match r {
            Ok(p) => {
                &&& parts.filename matches Some(f) && p.filename@ == f@
                &&& parts.bytes matches Some(b) && p.bytes@ == b@
                &&& p.mime@ == match parts.mime {
                    Some(m) => m@,
                    None => "application/octet-stream"@,
                }
                &&& Some(p.kind) == detect_kind(lowercase(p.filename@), p.mime@)
            },
            Err(e) => {
                ||| parts.filename is None && e@ == AppErrorView::BadRequest("缺少 file 字段"@)
                ||| parts.filename is Some && parts.bytes is None && e@ == AppErrorView::BadRequest(
                    "文件为空"@,
                )
                ||| parts.filename is Some && parts.bytes is Some && detect_kind(
                    lowercase(parts.filename.unwrap()@),
                    match parts.mime {
                        Some(m) => m@,
                        None => "application/octet-stream"@,
                    },
                ) is None && e@ == AppErrorView::BadRequest(
                    "仅支持 PDF / DOCX / TXT / Markdown 格式"@,
                )
            },
        },
        r is Ok <==> (parts.filename is Some && parts.bytes is Some && detect_kind(
            lowercase(parts.filename.unwrap()@),
            match parts.mime {
                Some(m) => m@,
                None => "application/octet-stream"@,
            },
        ) is Some),
{
    let filename = match parts.filename {
        Some(f) => f,
        None => return Err(AppError::BadRequest(text_of("缺少 file 字段"))),
    };
    let mime = match parts.mime {
        Some(m) => m,
        None => text_of("application/octet-stream"),
    };
    let bytes = match parts.bytes {
        Some(b) => b,
        None => return Err(AppError::BadRequest(text_of("文件为空"))),
    };
    match AttachmentKind::detect(filename.as_str(), mime.as_str()) {
        Some(kind) => Ok(UploadPlan { filename, mime, bytes, kind }),
        None => Err(AppError::BadRequest(text_of("仅支持 PDF / DOCX / TXT / Markdown 格式"))),
    }
}

/// Name of the stored copy of an attachment: its id with `.bin`.
pub fn stored_file_name(id: &str) -> (n: String)
    ensures
        n@ == id@ + ".bin"@,
{
    concat(id, ".bin")
}

} // verus!

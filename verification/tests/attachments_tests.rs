use ai_career_copilot::attachments::{
    check_attachment_count, check_file_size, content_disposition, file_field_meta, is_file_field,
    kind_label, percent_encode, plan_upload, sha256_hex, stored_file_name, summary,
    AttachmentDetail, AttachmentListRow, AttachmentRow, UploadParts,
};
use ai_career_copilot::error::AppError;
use ai_career_copilot::extract::AttachmentKind;

fn row(filename: &str, mime: &str) -> AttachmentRow {
    AttachmentRow {
        id: "a1".into(),
        session_id: "s1".into(),
        filename: filename.into(),
        mime_type: mime.into(),
        size_bytes: 123,
        storage_path: "/data/uploads/s1/a1.bin".into(),
        extract_status: "ok".into(),
        extract_error: None,
        sha256: "00".into(),
        created_at: "2024-01-01".into(),
    }
}

fn bad(r: Result<(), AppError>) -> String {
    match r {
        Err(AppError::BadRequest(m)) => m,
        _ => panic!("expected a bad request"),
    }
}

#[test]
fn encodes_file_names() {
    assert_eq!(percent_encode("简历 v1.pdf"), "%E7%AE%80%E5%8E%86%20v1.pdf");
    assert_eq!(percent_encode("a-b_c.d~e"), "a-b_c.d~e");
    assert_eq!(percent_encode("a/b?c"), "a%2Fb%3Fc");
    assert_eq!(content_disposition("cv.pdf"), "attachment; filename*=UTF-8''cv.pdf");
}

#[test]
fn digests_as_lowercase_hex() {
    assert_eq!(
        sha256_hex(b"abc"),
        "ba7816bf8f01cfea414140de5dae2223b00361a396177a9cb410ff61f20015ad"
    );
    assert_eq!(sha256_hex(b"").len(), 64);
}

#[test]
fn summaries_label_formats() {
    assert_eq!(kind_label("cv.PDF", "x"), "PDF");
    assert_eq!(kind_label("photo.png", "image/png"), "其他");
    let s = summary(&row("cv.docx", "application/octet-stream"), 42);
    assert_eq!(s.kind, "DOCX");
    assert_eq!(s.text_chars, 42);
    assert_eq!(s.id, "a1");
    assert_eq!(s.size_bytes, 123);
}

#[test]
fn listed_rows_clamp_negative_lengths() {
    let r = row("cv.md", "text/markdown");
    let listed = AttachmentListRow {
        id: r.id.clone(),
        session_id: r.session_id.clone(),
        filename: r.filename.clone(),
        mime_type: r.mime_type.clone(),
        size_bytes: r.size_bytes,
        storage_path: r.storage_path.clone(),
        extract_status: r.extract_status.clone(),
        extract_error: Some("x".into()),
        sha256: r.sha256.clone(),
        created_at: r.created_at.clone(),
        text_chars: -3,
    };
    let s = listed.into_summary();
    assert_eq!(s.text_chars, 0);
    assert_eq!(s.kind, "Markdown");
    assert_eq!(s.extract_error.as_deref(), Some("x"));
}

#[test]
fn detail_previews_the_first_thousand_chars() {
    let text = "字".repeat(1500);
    let d = AttachmentDetail::of(&row("cv.txt", "text/plain"), &text);
    assert_eq!(d.summary.text_chars, 1500);
    assert_eq!(d.text_preview.chars().count(), 1000);
    let d = AttachmentDetail::of(&row("cv.txt", "text/plain"), "short");
    assert_eq!(d.text_preview, "short");
}

#[test]
fn upload_limits() {
    assert!(check_attachment_count(4).is_ok());
    assert_eq!(bad(check_attachment_count(5)), "每个对话最多上传 5 个简历附件，请先删除旧的");
    assert!(check_file_size(10 * 1024 * 1024).is_ok());
    assert_eq!(bad(check_file_size(10 * 1024 * 1024 + 1)), "文件超过 10 MB 上限");
    assert_eq!(bad(check_file_size(0)), "文件为空");
}

#[test]
fn upload_fields() {
    assert!(is_file_field(Some("file")));
    assert!(!is_file_field(Some("other")));
    assert!(!is_file_field(None));
    let (n, m) = file_field_meta(None, None);
    assert_eq!((n.as_str(), m.as_str()), ("resume", "application/octet-stream"));
    let (n, m) = file_field_meta(Some("cv.pdf"), Some("application/pdf"));
    assert_eq!((n.as_str(), m.as_str()), ("cv.pdf", "application/pdf"));
    assert_eq!(stored_file_name("abc"), "abc.bin");
}

#[test]
fn upload_plans() {
    let ok = plan_upload(UploadParts {
        filename: Some("cv.PDF".into()),
        mime: None,
        bytes: Some(vec![1, 2, 3]),
    })
    .ok()
    .unwrap();
    assert_eq!(ok.kind, AttachmentKind::Pdf);
    assert_eq!(ok.mime, "application/octet-stream");
    let msg = |p: UploadParts| match plan_upload(p) {
        Err(AppError::BadRequest(m)) => m,
        _ => panic!("expected a bad request"),
    };
    assert_eq!(msg(UploadParts { filename: None, mime: None, bytes: None }), "缺少 file 字段");
    assert_eq!(msg(UploadParts { filename: Some("a.txt".into()), mime: None, bytes: None }), "文件为空");
    assert_eq!(
        msg(UploadParts { filename: Some("a.png".into()), mime: Some("image/png".into()), bytes: Some(vec![1]) }),
        "仅支持 PDF / DOCX / TXT / Markdown 格式"
    );
}

#[test]
fn encoded_file_names_are_header_safe() {
    let name = "简历 \"final\"; v2\r\n.pdf";
    let v = percent_encode(name);
    assert!(v
        .chars()
        .all(|c| c.is_ascii_alphanumeric() || "-_.~%".contains(c)));
    assert_eq!(
        v,
        "%E7%AE%80%E5%8E%86%20%22final%22%3B%20v2%0D%0A.pdf"
    );
}

#[test]
fn percent_encoding_decodes_back() {
    let name = "简历 v2 (final)~.pdf";
    let v = percent_encode(name);
    let expected_len: usize = name
        .bytes()
        .map(|b| if b.is_ascii_alphanumeric() || b"-_.~".contains(&b) { 1 } else { 3 })
        .sum();
    assert_eq!(v.len(), expected_len);
    let chars: Vec<char> = v.chars().collect();
    let mut out: Vec<u8> = Vec::new();
    let mut i = 0;
    while i < chars.len() {
        if chars[i] == '%' {
            let hex: String = chars[i + 1..i + 3].iter().collect();
            assert!(hex.chars().all(|c| c.is_ascii_digit() || ('A'..='F').contains(&c)));
            out.push(u8::from_str_radix(&hex, 16).unwrap());
            i += 3;
        } else {
            out.push(chars[i] as u8);
            i += 1;
        }
    }
    assert_eq!(out, name.as_bytes());
}

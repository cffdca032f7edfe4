use ai_career_copilot::extract::{
    cap_chars, docx_event, docx_from_entry, extract, extract_pdf_outcome, extract_text, normalize, outcome_from_raw,
    pdf_interrupted_outcome, AttachmentKind, ExtractStatus, XmlEvent, ZipStage, MAX_TEXT_CHARS,
};

#[test]
fn detects_kinds() {
    assert_eq!(
        AttachmentKind::detect("Resume.PDF", "application/pdf"),
        Some(AttachmentKind::Pdf)
    );
    assert_eq!(
        AttachmentKind::detect("resume.docx", "application/octet-stream"),
        Some(AttachmentKind::Docx)
    );
    assert_eq!(
        AttachmentKind::detect("resume.md", "application/octet-stream"),
        Some(AttachmentKind::Markdown)
    );
    assert_eq!(
        AttachmentKind::detect("resume.txt", "text/plain"),
        Some(AttachmentKind::Text)
    );
    assert_eq!(AttachmentKind::detect("logo.png", "image/png"), None);
}

#[test]
fn normalizes_blank_lines() {
    let raw = "Header\n\n\n\nBody line\n   \nFooter";
    assert_eq!(normalize(raw), "Header\n\nBody line\n\nFooter");
}

#[test]
fn caps_very_long_text() {
    let s: String = "中".repeat(40_000);
    let (out, truncated) = cap_chars(&s, 32_000);
    assert!(truncated);
    assert_eq!(out.chars().count(), 32_000);
}

#[test]
fn extracts_utf8_text() {
    let outcome = extract(AttachmentKind::Text, "你好 world".as_bytes());
    assert_eq!(outcome.status, ExtractStatus::Complete);
    assert_eq!(outcome.text, "你好 world");
}

#[test]
fn detection_uses_mime_when_name_is_silent() {
    assert_eq!(AttachmentKind::detect("cv", "text/markdown"), Some(AttachmentKind::Markdown));
    assert_eq!(AttachmentKind::detect("cv", "text/html"), Some(AttachmentKind::Text));
    assert_eq!(
        AttachmentKind::detect(
            "cv",
            "application/vnd.openxmlformats-officedocument.wordprocessingml.document"
        ),
        Some(AttachmentKind::Docx)
    );
    assert_eq!(AttachmentKind::detect("CV.MarkDown", ""), Some(AttachmentKind::Markdown));
    assert_eq!(AttachmentKind::detect("notes.pdf.txt", "text/plain"), Some(AttachmentKind::Text));
    assert_eq!(AttachmentKind::detect_in_lowercase("a.PDF", ""), None);
}

#[test]
fn labels_and_status_strings() {
    assert_eq!(AttachmentKind::Pdf.label(), "PDF");
    assert_eq!(AttachmentKind::Docx.label(), "DOCX");
    assert_eq!(AttachmentKind::Text.label(), "TXT");
    assert_eq!(AttachmentKind::Markdown.label(), "Markdown");
    assert_eq!(ExtractStatus::Complete.as_str(), "ok");
    assert_eq!(ExtractStatus::Partial.as_str(), "partial");
    assert_eq!(ExtractStatus::Failed.as_str(), "failed");
}

#[test]
fn normalize_edge_cases() {
    assert_eq!(normalize(""), "");
    assert_eq!(normalize("\n\n  \n"), "");
    assert_eq!(normalize("  a  \r\n\r\n\r\nb\t\n"), "  a\n\nb");
    assert_eq!(normalize("\n\nfirst"), "first");
    assert_eq!(normalize("x\u{3000}\ny"), "x\ny");
}

#[test]
fn cap_keeps_short_text() {
    let (out, truncated) = cap_chars("abc", 3);
    assert!(!truncated);
    assert_eq!(out, "abc");
    let (out, truncated) = cap_chars("abcd", 3);
    assert!(truncated);
    assert_eq!(out, "abc");
}

#[test]
fn long_text_is_partial_with_note() {
    let long = "字".repeat(MAX_TEXT_CHARS + 5);
    let outcome = extract(AttachmentKind::Markdown, long.as_bytes());
    assert_eq!(outcome.status, ExtractStatus::Partial);
    assert_eq!(outcome.text.chars().count(), MAX_TEXT_CHARS);
    assert_eq!(
        outcome.error.as_deref(),
        Some("已截断为前 32000 个字符（原文超出上限）")
    );
}

#[test]
fn gbk_text_is_decoded() {
    // "中文" in GBK.
    let bytes = [0xD6u8, 0xD0, 0xCE, 0xC4];
    assert_eq!(extract_text(&bytes), "中文");
}

#[test]
fn failed_extraction_keeps_message() {
    let outcome = outcome_from_raw(Err("boom".to_string()));
    assert_eq!(outcome.status, ExtractStatus::Failed);
    assert_eq!(outcome.text, "");
    assert_eq!(outcome.error.as_deref(), Some("boom"));
    let interrupted = pdf_interrupted_outcome();
    assert_eq!(interrupted.status, ExtractStatus::Failed);
    assert!(interrupted.error.unwrap().starts_with("PDF 解析中断"));
}

#[test]
fn docx_that_is_not_a_zip_fails() {
    let outcome = extract(AttachmentKind::Docx, b"not a zip at all");
    assert_eq!(outcome.status, ExtractStatus::Failed);
    assert!(outcome.error.unwrap().starts_with("DOCX 不是合法的 zip："));
}

#[test]
fn pdf_that_is_not_a_pdf_fails() {
    let result = pdf_extract::extract_text_from_mem(b"plain words").map_err(|e| e.to_string());
    assert!(result.is_err());
    let outcome = extract_pdf_outcome(Some(result));
    assert_eq!(outcome.status, ExtractStatus::Failed);
    assert!(outcome.error.unwrap().starts_with("PDF 解析失败："));
}

#[test]
fn pdf_outcomes_from_extractor_results() {
    let ok = extract_pdf_outcome(Some(Ok("Name  \n\n\n\nRust".to_string())));
    assert_eq!(ok.status, ExtractStatus::Complete);
    assert_eq!(ok.text, "Name\n\nRust");
    let bad = extract_pdf_outcome(Some(Err("bad xref".to_string())));
    assert_eq!(bad.error.as_deref(), Some("PDF 解析失败：bad xref"));
    let panicked = extract_pdf_outcome(None);
    assert_eq!(panicked.status, ExtractStatus::Failed);
    assert_eq!(panicked.text, "");
    assert_eq!(panicked.error, pdf_interrupted_outcome().error);
}

#[test]
fn docx_xml_runs_and_paragraphs() {
    let xml = r#"<w:document xmlns:w="x"><w:body><w:p><w:r><w:t>Hello</w:t></w:r><w:r><w:tab/><w:t>World</w:t></w:r></w:p><w:p><w:r><w:t>Line2</w:t></w:r></w:p></w:body></w:document>"#;
    let text = ai_career_copilot::extract::docx_text_from_xml(xml).unwrap();
    assert_eq!(text, "\nHello\nWorld\n\nLine2\n");
    assert_eq!(normalize(&text), "Hello\nWorld\n\nLine2");
}

#[test]
fn normalized_text_has_normal_shape() {
    let raw = "\n\n  Title  \r\n\n\n\n\tSkills:\t\n  \n- Rust   \n\n\n";
    let out = normalize(raw);
    assert_eq!(out, "  Title\n\n\tSkills:\n\n- Rust");
    assert!(!out.contains("\n\n\n"));
    assert!(!out.starts_with('\n'));
    assert!(!out.ends_with(char::is_whitespace));
    for line in out.lines() {
        assert!(!line.ends_with(char::is_whitespace));
    }
}

#[test]
fn docx_events_build_paragraph_text() {
    let events = vec![
        XmlEvent::Start(b"p".to_vec()),
        XmlEvent::Start(b"t".to_vec()),
        XmlEvent::Text("Rust 工程师".as_bytes().to_vec()),
        XmlEvent::End(b"t".to_vec()),
        XmlEvent::Text(b"outside a run".to_vec()),
        XmlEvent::Empty(b"br".to_vec()),
        XmlEvent::Start(b"r".to_vec()),
        XmlEvent::End(b"p".to_vec()),
        XmlEvent::Other,
    ];
    let mut text: Vec<char> = Vec::new();
    let mut in_text = false;
    for ev in &events {
        in_text = docx_event(&mut text, in_text, ev);
    }
    let s: String = text.into_iter().collect();
    assert_eq!(s, "\nRust 工程师\n\n");
    assert!(!in_text);
}

#[test]
fn docx_run_text_is_unescaped() {
    let mut text: Vec<char> = Vec::new();
    let open = docx_event(&mut text, true, &XmlEvent::Text(b"C&lt;&gt;C++ &amp; Rust".to_vec()));
    assert!(open);
    let s: String = text.into_iter().collect();
    assert_eq!(s, "C<>C++ & Rust");
}

#[test]
fn docx_entry_errors_name_the_failing_step() {
    assert_eq!(
        docx_from_entry(Err((ZipStage::Entry, "not found".to_string()))),
        Err("DOCX 缺少 word/document.xml：not found".to_string())
    );
    assert_eq!(
        docx_from_entry(Err((ZipStage::Archive, "bad".to_string()))),
        Err("DOCX 不是合法的 zip：bad".to_string())
    );
    assert_eq!(
        docx_from_entry(Ok("<w:p><w:r><w:t>hi</w:t></w:r></w:p>".to_string())),
        Ok("\nhi\n".to_string())
    );
}

#[test]
fn normalizing_twice_changes_nothing_and_keeps_lines() {
    for raw in ["\n\n  Title  \r\n\n\n\n\tSkills:\t\n  \n- Rust   \n\n\n", "a\nb\n\n\nc", "", "  \n \n", "x\u{3000}\ny "] {
        let once = normalize(raw);
        assert_eq!(normalize(&once), once);
        let kept: Vec<&str> = once.lines().filter(|l| !l.is_empty()).collect();
        let expected: Vec<&str> = raw.lines().map(str::trim_end).filter(|l| !l.is_empty()).collect();
        assert_eq!(kept, expected);
    }
}

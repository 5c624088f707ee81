use blitz_parse::docx::{extract_text_from_xml, fallback_text, parse_docx, scan_events, RawEvent};
use blitz_parse::errors::BlitzParseError;
use blitz_parse::pdf::parse_pdf;
use blitz_parse::txt::parse_txt;
use blitz_parse::{detect_format, FileFormat};

fn make_zip(entries: &[(&str, &str)]) -> Vec<u8> {
    let cur = std::io::Cursor::new(Vec::new());
    let mut zw = zip::ZipWriter::new(cur);
    for (name, content) in entries {
        zw.start_file(*name, zip::write::SimpleFileOptions::default())
            .unwrap();
        std::io::Write::write_all(&mut zw, content.as_bytes()).unwrap();
    }
    zw.finish().unwrap().into_inner()
}

#[test]
fn test_unsupported_file_type() {
    let result = detect_format("tests/assets/sample.png");
    assert!(
        result.is_err(),
        "Should return an error for unsupported file types"
    );
}

#[test]
fn test_detect_format_known_extensions_case_insensitive() {
    assert!(matches!(detect_format("docs/paper.PDF"), Ok(FileFormat::Pdf)));
    assert!(matches!(detect_format("a/b/report.docx"), Ok(FileFormat::Docx)));
    assert!(matches!(detect_format("notes.TxT"), Ok(FileFormat::Txt)));
}

#[test]
fn test_detect_format_missing_extension() {
    match detect_format("archive") {
        Err(BlitzParseError::UnsupportedFileType(m)) => assert_eq!(m, "No extension"),
        other => panic!("expected UnsupportedFileType, got {:?}", other),
    }
    match detect_format("dir/.gitignore") {
        Err(BlitzParseError::UnsupportedFileType(m)) => assert_eq!(m, "No extension"),
        other => panic!("expected UnsupportedFileType, got {:?}", other),
    }
}

#[test]
fn test_detect_format_unknown_extension_carries_it() {
    match detect_format("img.png") {
        Err(BlitzParseError::UnsupportedFileType(m)) => assert_eq!(m, "png"),
        other => panic!("expected UnsupportedFileType, got {:?}", other),
    }
}

#[test]
fn test_parse_txt_verbatim() {
    let bytes: Vec<u8> = "Hello, blitzparse!\nThis is a test.".as_bytes().to_vec();
    assert_eq!(
        parse_txt(&bytes).unwrap(),
        "Hello, blitzparse!\nThis is a test."
    );
}

#[test]
fn test_parse_txt_non_ascii_utf8() {
    let text = "h\u{e9}llo w\u{f6}rld \u{2014} \u{2211}";
    let bytes: Vec<u8> = text.as_bytes().to_vec();
    assert_eq!(parse_txt(&bytes).unwrap(), text);
}

#[test]
fn test_error_messages() {
    assert_eq!(BlitzParseError::Io("x".to_string()).message(), "I/O Error: x");
    assert_eq!(
        BlitzParseError::Pdf("y".to_string()).message(),
        "PDF Parsing Error: y"
    );
    assert_eq!(
        BlitzParseError::Docx("z".to_string()).message(),
        "DOCX Parsing Error: z"
    );
    match detect_format("img.png") {
        Err(e) => assert_eq!(e.message(), "Unsupported file type: png"),
        other => panic!("expected an error, got {:?}", other),
    }
}

#[test]
fn test_parse_txt_invalid_utf8_is_io_error() {
    let bytes: Vec<u8> = vec![0xff, 0xfe, 0x00];
    match parse_txt(&bytes) {
        Err(BlitzParseError::Io(_)) => {}
        other => panic!("expected Io error, got {:?}", other),
    }
}

fn make_minimal_pdf(text_line: &str) -> Vec<u8> {
    let mut body = String::from("%PDF-1.4\n");
    let stream = format!("BT /F1 24 Tf 72 720 Td ({}) Tj ET", text_line);
    let objects = vec![
        "1 0 obj\n<< /Type /Catalog /Pages 2 0 R >>\nendobj\n".to_string(),
        "2 0 obj\n<< /Type /Pages /Kids [3 0 R] /Count 1 >>\nendobj\n".to_string(),
        "3 0 obj\n<< /Type /Page /Parent 2 0 R /MediaBox [0 0 612 792] /Contents 4 0 R \
         /Resources << /Font << /F1 5 0 R >> >> >>\nendobj\n"
            .to_string(),
        format!(
            "4 0 obj\n<< /Length {} >>\nstream\n{}\nendstream\nendobj\n",
            stream.len(),
            stream
        ),
        "5 0 obj\n<< /Type /Font /Subtype /Type1 /BaseFont /Helvetica >>\nendobj\n".to_string(),
    ];
    let mut offsets = Vec::new();
    for obj in &objects {
        offsets.push(body.len());
        body.push_str(obj);
    }
    let xref_start = body.len();
    body.push_str("xref\n0 6\n0000000000 65535 f \n");
    for off in &offsets {
        body.push_str(&format!("{:010} 00000 n \n", off));
    }
    body.push_str(&format!(
        "trailer\n<< /Size 6 /Root 1 0 R >>\nstartxref\n{}\n%%EOF\n",
        xref_start
    ));
    body.into_bytes()
}

#[test]
fn test_parse_pdf_extracts_text() {
    let bytes = make_minimal_pdf("Hello PDF");
    let text = parse_pdf(&bytes).unwrap();
    assert!(text.contains("Hello PDF"), "missing text in {:?}", text);
}

#[test]
fn test_parse_pdf_error_kind() {
    let bytes: Vec<u8> = Vec::new();
    match parse_pdf(&bytes) {
        Err(BlitzParseError::Pdf(_)) => {}
        other => panic!("expected Pdf error, got {:?}", other),
    }
}

#[test]
fn test_docx_table_row_rendering() {
    let xml = "<w:document><w:p><w:r><w:t>Before</w:t></w:r></w:p>\
               <w:tbl><w:tr>\
               <w:tc><w:p><w:r><w:t>A</w:t></w:r></w:p></w:tc>\
               <w:tc><w:p><w:r><w:t>B</w:t></w:r></w:p></w:tc>\
               </w:tr></w:tbl></w:document>";
    let text = extract_text_from_xml(xml).unwrap();
    assert_eq!(text, "Before\n| A  | B  ||");
    let row = text.lines().last().unwrap();
    assert!(row.starts_with('|'));
    assert!(row.ends_with('|'));
    assert_ne!(text.lines().next().unwrap(), row);
}

#[test]
fn test_docx_fast_path_from_archive() {
    let xml = "<w:document><w:p><w:r><w:t>Hello from the fast tier</w:t></w:r></w:p></w:document>";
    let bytes = make_zip(&[("word/document.xml", xml)]);
    assert_eq!(parse_docx(&bytes).unwrap(), "Hello from the fast tier");
}

#[test]
fn test_docx_fallback_error_surfaced_not_fast_tier_error() {
    // The archive opens but has no body-markup member: the fast tier's
    // failure stays internal, and only the fallback tier's error shows.
    let bytes = make_zip(&[("word/other.xml", "<w:p/>")]);
    match parse_docx(&bytes) {
        Err(BlitzParseError::Docx(m)) => assert_eq!(m, "Failed to read DOCX file"),
        other => panic!("expected Docx error, got {:?}", other),
    }
}

#[test]
fn test_docx_garbage_bytes_fail_with_fallback_error() {
    let bytes: Vec<u8> = b"not a zip archive at all".to_vec();
    match parse_docx(&bytes) {
        Err(BlitzParseError::Docx(m)) => assert_eq!(m, "Failed to read DOCX file"),
        other => panic!("expected Docx error, got {:?}", other),
    }
}

#[test]
fn test_docx_built_package_extracts_paragraph() {
    let docx = docx_rs::Docx::new().add_paragraph(
        docx_rs::Paragraph::new()
            .add_run(docx_rs::Run::new().add_text("Vestibulum neque massa.")),
    );
    let mut cur = std::io::Cursor::new(Vec::new());
    docx.build().pack(&mut cur).unwrap();
    let bytes = cur.into_inner();
    let text = parse_docx(&bytes).unwrap();
    assert!(
        text.contains("Vestibulum neque massa."),
        "missing paragraph text in {:?}",
        text
    );
}

#[test]
fn test_scan_events_stops_at_first_eof() {
    let events = vec![
        RawEvent::Text("a".to_string()),
        RawEvent::Eof,
        RawEvent::Text("b".to_string()),
    ];
    assert_eq!(scan_events(&events).unwrap(), vec!['a', ' ']);
}

#[test]
fn test_scan_events_failure_surfaces_message() {
    let events = vec![
        RawEvent::Text("x".to_string()),
        RawEvent::Failed("boom".to_string()),
        RawEvent::Eof,
    ];
    assert_eq!(scan_events(&events).unwrap_err(), "boom");
}

#[test]
fn test_fallback_text_joins_paragraphs() {
    let paragraphs = vec![
        vec!["Hello ".to_string(), "world".to_string()],
        vec![],
        vec!["Next".to_string()],
    ];
    assert_eq!(fallback_text(&paragraphs), "Hello world\nNext");
}

#[test]
fn test_extract_text_from_xml_normalizes_whitespace_lines() {
    let xml = "<w:document><w:p><w:r><w:t>one</w:t></w:r></w:p>\
               <w:p></w:p>\
               <w:p><w:r><w:t>two</w:t></w:r></w:p></w:document>";
    assert_eq!(extract_text_from_xml(xml).unwrap(), "one\ntwo");
}

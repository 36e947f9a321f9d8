use paperback::chm::parse_system_file;
use paperback::chm::resolve_link;
use paperback::docx::extract_number_from_string;
use paperback::docx::parse_hyperlink_instruction;
use paperback::epub::SectionContent;
use paperback::epub::compute_navpoint_offset;
use paperback::epub::convert_section;
use paperback::epub::heading_marker_type;
use paperback::epub::is_textual_mime;
use paperback::epub::normalize_path;
use paperback::epub::resolve_href;
use paperback::epub::split_href;
use paperback::epub::SectionMeta;
use paperback::error::ParseError;
use paperback::fb2::escape_xml;
use paperback::document::MarkerType;
use paperback::pdf::map_pdfium_error;
use paperback::pdf::process_text_lines;
use paperback::pdf::sanitize_utf16_buffer;
use paperback::strmap::StrMap;
use paperback::text::TextParser;

#[test]
fn test_text_parse_bytes() {
    let parser = TextParser;
    let doc = parser.parse_bytes("notes/Read Me.txt", b"hel\xC2\xADlo world\n").unwrap();
    assert_eq!(doc.title, "Read Me");
    assert_eq!(doc.buffer.content, "hello world\n");
    assert_eq!(doc.stats.word_count, 2);
    assert_eq!(doc.stats.line_count, 1);
    let err = parser.parse_bytes("empty.txt", b"").unwrap_err();
    assert!(matches!(err, ParseError::EmptyInput(_)));
}

#[test]
fn test_chm_system_record_title() {
    let mut content: Vec<u8> = vec![0, 0, 0, 0];
    content.extend_from_slice(&[9, 0, 2, 0, 1, 2]);
    content.extend_from_slice(&[3, 0, 6, 0]);
    content.extend_from_slice(b"Title\0");
    assert_eq!(parse_system_file(&content), Some(String::from("Title")));
    assert_eq!(parse_system_file(b"\0\0\0\0"), None);
    assert_eq!(parse_system_file(b"ab"), None);
}

#[test]
fn test_chm_resolve_link() {
    assert_eq!(resolve_link("/dir/page.htm", "other.htm"), "/dir/other.htm");
    assert_eq!(resolve_link("/dir/page.htm", "/abs.htm"), "/abs.htm");
    assert_eq!(resolve_link("/dir/page.htm", "HTTPS://example.com"), "HTTPS://example.com");
    assert_eq!(resolve_link("page.htm", "sub\\other.htm"), "sub/other.htm");
}

#[test]
fn test_docx_hyperlink_instruction() {
    assert_eq!(parse_hyperlink_instruction(" HYPERLINK \"https://e.com\" "), "https://e.com");
    assert_eq!(parse_hyperlink_instruction(" HYPERLINK \\l \"anchor\" "), "#anchor");
    assert_eq!(parse_hyperlink_instruction("no quotes here"), "");
}

#[test]
fn test_docx_extract_number() {
    assert_eq!(extract_number_from_string("heading3"), Some(3));
    assert_eq!(extract_number_from_string("Heading2Char"), Some(2));
    assert_eq!(extract_number_from_string("body"), None);
    assert_eq!(extract_number_from_string("99999999999999999999"), None);
}

#[test]
fn test_fb2_escape_xml() {
    assert_eq!(escape_xml("a<b>&\"'"), "a&lt;b&gt;&amp;&quot;&apos;");
    assert_eq!(escape_xml("plain"), "plain");
}

#[test]
fn test_epub_split_and_resolve_href() {
    let (path, frag) = split_href("epub://ch1.html#top");
    assert_eq!(path, "ch1.html");
    assert_eq!(frag.as_deref(), Some("top"));
    let (path, frag) = split_href("ch2.html");
    assert_eq!(path, "ch2.html");
    assert!(frag.is_none());
    assert_eq!(resolve_href("text/ch1.html", "ch2.html#s1"), "text/ch2.html#s1");
    assert_eq!(resolve_href("text/ch1.html", "../images/x.html"), "images/x.html");
    assert_eq!(resolve_href("text/ch1.html", "#frag"), "#frag");
    assert_eq!(resolve_href("text/ch1.html", "MAILTO:a@b.c"), "MAILTO:a@b.c");
    assert_eq!(resolve_href("text/ch1.html", "/abs/ch3.html"), "abs/ch3.html");
}

#[test]
fn test_epub_normalize_path_components() {
    assert_eq!(normalize_path("a/./b/../c"), "a/c");
    assert_eq!(normalize_path("/lead/slash"), "lead/slash");
    assert_eq!(normalize_path("a//b"), "a/b");
}

#[test]
fn test_epub_mime_classification() {
    assert!(is_textual_mime("application/XHTML+xml"));
    assert!(is_textual_mime("text/plain"));
    assert!(is_textual_mime("image/svg+xml"));
    assert!(!is_textual_mime("image/png"));
}

#[test]
fn test_epub_heading_marker_type() {
    assert_eq!(heading_marker_type(1), MarkerType::Heading1);
    assert_eq!(heading_marker_type(6), MarkerType::Heading6);
    assert_eq!(heading_marker_type(9), MarkerType::Heading6);
}

#[test]
fn test_epub_navpoint_offset() {
    let sections = vec![SectionMeta { path: String::from("ch1.html"), start: 100, end: 200 }];
    let mut ids: StrMap<usize> = StrMap::new();
    ids.insert(String::from("s2"), 150);
    ids.insert(String::from("outside"), 999);
    assert_eq!(compute_navpoint_offset("ch1.html#s2", &sections, &ids), 150);
    assert_eq!(compute_navpoint_offset("ch1.html#outside", &sections, &ids), 100);
    assert_eq!(compute_navpoint_offset("ch1.html#none", &sections, &ids), 100);
    assert_eq!(compute_navpoint_offset("gone.html#s2", &sections, &ids), 150);
    assert_eq!(
        compute_navpoint_offset("gone.html#none", &sections, &ids),
        paperback::resolve::UNRESOLVED_OFFSET
    );
    assert_eq!(
        compute_navpoint_offset("gone.html", &sections, &ids),
        paperback::resolve::UNRESOLVED_OFFSET
    );
}

#[test]
fn test_pdf_process_text_lines() {
    let lines = process_text_lines("  first   line  \n\n\tsecond\t\n");
    assert_eq!(lines, vec![String::from("first line"), String::from("second")]);
    assert!(process_text_lines("\n \n").is_empty());
}

#[test]
fn test_pdf_sanitize_utf16_buffer() {
    let buffer: Vec<u16> = vec![0x48, 0x69, 0];
    assert_eq!(sanitize_utf16_buffer(&buffer, 6), Some(String::from("Hi")));
    assert_eq!(sanitize_utf16_buffer(&buffer, 2), None);
    assert_eq!(sanitize_utf16_buffer(&buffer, 0), None);
}

fn reading(text: &str) -> SectionContent {
    SectionContent {
        text: String::from(text),
        headings: Vec::new(),
        links: Vec::new(),
        lists: Vec::new(),
        list_items: Vec::new(),
        id_positions: Vec::new(),
    }
}

#[test]
fn test_convert_section_prefers_xml() {
    let chosen = convert_section(Some(reading("xml")), Some(reading("html"))).unwrap();
    assert_eq!(chosen.text, "xml");
    let chosen = convert_section(None, Some(reading("html"))).unwrap();
    assert_eq!(chosen.text, "html");
    let err = convert_section(None, None).unwrap_err();
    assert!(matches!(err, ParseError::FormatInvalid(_)));
}

#[test]
fn test_pdf_error_mapping() {
    let err = map_pdfium_error(4, "Failed to open PDF document");
    match err {
        ParseError::PasswordRequired(m) => assert_eq!(m, "Password required or incorrect"),
        other => panic!("unexpected error: {:?}", other),
    }
    let err = map_pdfium_error(2, "Failed to open PDF document");
    match err {
        ParseError::OpenFailure(m) => {
            assert_eq!(m, "Failed to open PDF document (PDFium error code 2)")
        },
        other => panic!("unexpected error: {:?}", other),
    }
    let err = map_pdfium_error(0, "Failed to open PDF document");
    match err {
        ParseError::OpenFailure(m) => assert_eq!(m, "Failed to open PDF document"),
        other => panic!("unexpected error: {:?}", other),
    }
}

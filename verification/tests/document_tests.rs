use paperback::document::Document;
use paperback::document::DocumentBuffer;
use paperback::document::DocumentStats;
use paperback::document::Marker;
use paperback::document::MarkerType;
use paperback::document::ParserContext;

#[test]
fn test_append_advances_position_by_display_length() {
    let mut buffer = DocumentBuffer::new();
    assert_eq!(buffer.current_position(), 0);
    buffer.append("hello");
    assert_eq!(buffer.current_position(), 5);
    buffer.append(" caf\u{e9}");
    // One accented character counts as one unit, not two bytes.
    assert_eq!(buffer.current_position(), 10);
    buffer.append("");
    assert_eq!(buffer.current_position(), 10);
    assert_eq!(buffer.content, "hello caf\u{e9}");
}

#[test]
fn test_positions_never_decrease_over_appends() {
    let mut buffer = DocumentBuffer::new();
    let mut last = buffer.current_position();
    for piece in ["a", "", "bcd", "\n", "e"] {
        buffer.append(piece);
        assert!(buffer.current_position() >= last);
        last = buffer.current_position();
    }
    assert_eq!(last, 6);
}

#[test]
fn test_markers_stay_within_content() {
    let mut buffer = DocumentBuffer::new();
    buffer.append("Chapter One\n");
    buffer.add_marker(Marker::new(MarkerType::Heading1, 0).with_text(String::from("Chapter One")).with_level(1));
    buffer.append("Body text.\n");
    buffer.add_marker(Marker::new(MarkerType::PageBreak, buffer.current_position()));
    let limit = buffer.current_position();
    for marker in &buffer.markers {
        assert!(marker.position <= limit);
    }
}

#[test]
fn test_with_content_counts_display_units() {
    let buffer = DocumentBuffer::with_content(String::from("\u{1F600}ab"));
    assert_eq!(buffer.current_position(), 3);
}

#[test]
fn test_stats_from_text() {
    let stats = DocumentStats::from_text("hello world\nsecond line");
    assert_eq!(stats.word_count, 4);
    assert_eq!(stats.line_count, 2);
    assert_eq!(stats.char_count, 23);
    let empty = DocumentStats::from_text("");
    assert_eq!(empty.word_count, 0);
    assert_eq!(empty.line_count, 0);
    assert_eq!(empty.char_count, 0);
    let trailing = DocumentStats::from_text("one\n");
    assert_eq!(trailing.line_count, 1);
}

#[test]
fn test_char_count_matches_display_accounting() {
    let text = "caf\u{e9} na\u{ef}ve";
    let stats = DocumentStats::from_text(text);
    let buffer = DocumentBuffer::with_content(String::from(text));
    assert_eq!(stats.char_count, buffer.current_position());
}

#[test]
fn test_document_builders() {
    let mut doc = Document::new().with_title(String::from("T")).with_author(String::from("A"));
    assert_eq!(doc.title, "T");
    assert_eq!(doc.author, "A");
    let mut buffer = DocumentBuffer::new();
    buffer.append("x y\nz");
    doc.set_buffer(buffer);
    doc.compute_stats();
    assert_eq!(doc.stats.word_count, 3);
    assert_eq!(doc.stats.line_count, 2);
    assert_eq!(doc.stats.char_count, 5);
}

#[test]
fn test_parser_context() {
    let ctx = ParserContext::new(String::from("a/b.epub"));
    assert_eq!(ctx.file_path, "a/b.epub");
    assert!(ctx.password.is_none());
    let ctx = ctx.with_password(String::from("secret"));
    assert_eq!(ctx.password.as_deref(), Some("secret"));
}

#[test]
fn test_marker_builders() {
    let marker = Marker::new(MarkerType::Link, 42)
        .with_text(String::from("click"))
        .with_reference(String::from("ch1.html#top"))
        .with_level(2);
    assert_eq!(marker.position, 42);
    assert_eq!(marker.text, "click");
    assert_eq!(marker.reference, "ch1.html#top");
    assert_eq!(marker.level, 2);
    assert_eq!(marker.marker_type.to_int(), 9);
}

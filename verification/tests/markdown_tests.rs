use paperback::document::MarkerType;
use paperback::markdown::MarkdownParser;
use paperback::markdown::MdEvent;
use paperback::markdown::fold_markdown_events;
use paperback::markdown::parse_markdown_to_text;

#[test]
fn test_markdown_fold_builds_heading_and_text() {
    let events = vec![
        MdEvent::HeadingStart(1, None),
        MdEvent::Text(String::from("  Title  ")),
        MdEvent::HeadingEnd,
        MdEvent::ParagraphStart,
        MdEvent::Text(String::from("Body")),
        MdEvent::BlockEnd,
    ];
    let (text, headings, links, _ids) = fold_markdown_events(&events);
    assert_eq!(text, "Title\n\nBody\n\n");
    assert_eq!(headings.len(), 1);
    assert_eq!(headings[0].text, "Title");
    assert_eq!(headings[0].level, 1);
    assert_eq!(headings[0].offset, 0);
    assert!(links.is_empty());
}

#[test]
fn test_markdown_fold_links_and_anchors() {
    let events = vec![
        MdEvent::HeadingStart(2, Some(String::from("intro"))),
        MdEvent::Text(String::from("Intro")),
        MdEvent::HeadingEnd,
        MdEvent::LinkStart(String::from("https://example.com")),
        MdEvent::Text(String::from("here")),
        MdEvent::LinkEnd,
    ];
    let (text, headings, links, ids) = fold_markdown_events(&events);
    assert_eq!(text, "Intro\n\nhere");
    assert_eq!(headings.len(), 1);
    assert_eq!(links.len(), 1);
    assert_eq!(links[0].position, 7);
    assert_eq!(links[0].text, "here");
    assert_eq!(links[0].target, "https://example.com");
    assert_eq!(ids.get(&String::from("intro")), Some(&0));
}

#[test]
fn test_markdown_parse_real_source() {
    let (text, headings, links, _ids) = parse_markdown_to_text("# One\n\nHello [x](https://e.com) world\n\n## Two\n");
    assert!(text.starts_with("One\n\n"));
    assert!(text.contains("Hello"));
    assert!(text.contains("x"));
    assert_eq!(headings.len(), 2);
    assert_eq!(headings[0].text, "One");
    assert_eq!(headings[0].level, 1);
    assert_eq!(headings[1].text, "Two");
    assert_eq!(headings[1].level, 2);
    assert_eq!(links.len(), 1);
    assert_eq!(links[0].target, "https://e.com");
}

#[test]
fn test_markdown_parse_bytes_builds_document() {
    let parser = MarkdownParser;
    let doc = parser.parse_bytes("dir/Notes.md", b"# Alpha\n\ntext body\n\n## Beta\n").unwrap();
    assert_eq!(doc.title, "Notes");
    let heading_markers: Vec<_> = doc
        .buffer
        .markers
        .iter()
        .filter(|m| m.marker_type == MarkerType::Heading1 || m.marker_type == MarkerType::Heading2)
        .collect();
    assert_eq!(heading_markers.len(), 2);
    let limit = doc.buffer.current_position();
    for marker in &doc.buffer.markers {
        assert!(marker.position <= limit);
    }
    assert_eq!(doc.toc_items.len(), 1);
    assert_eq!(doc.toc_items[0].name, "Alpha");
    assert_eq!(doc.toc_items[0].children.len(), 1);
    assert_eq!(doc.toc_items[0].children[0].name, "Beta");
    assert!(doc.stats.word_count >= 4);
}

#[test]
fn test_markdown_parse_bytes_rejects_empty_input() {
    let parser = MarkdownParser;
    let err = parser.parse_bytes("empty.md", b"").unwrap_err();
    assert!(matches!(err, paperback::error::ParseError::EmptyInput(_)));
}

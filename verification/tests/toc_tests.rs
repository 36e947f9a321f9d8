use paperback::document::DocumentBuffer;
use paperback::document::Marker;
use paperback::document::MarkerType;
use paperback::toc::HeadingInfo;
use paperback::toc::build_toc_from_buffer;
use paperback::toc::build_toc_from_headings;

fn heading(level: i32, text: &str, offset: usize) -> HeadingInfo {
    HeadingInfo { text: String::from(text), level, offset }
}

#[test]
fn test_toc_synthesis_nests_and_splits_roots() {
    let headings = vec![heading(1, "A", 0), heading(2, "B", 10), heading(1, "C", 20)];
    let toc = build_toc_from_headings(&headings);
    assert_eq!(toc.len(), 2);
    assert_eq!(toc[0].name, "A");
    assert_eq!(toc[0].offset, 0);
    assert_eq!(toc[0].children.len(), 1);
    assert_eq!(toc[0].children[0].name, "B");
    assert_eq!(toc[0].children[0].offset, 10);
    assert_eq!(toc[1].name, "C");
    assert_eq!(toc[1].offset, 20);
    assert!(toc[1].children.is_empty());
}

#[test]
fn test_toc_synthesis_level_gap_creates_no_intermediate() {
    let headings = vec![heading(1, "A", 0), heading(3, "B", 5)];
    let toc = build_toc_from_headings(&headings);
    assert_eq!(toc.len(), 1);
    assert_eq!(toc[0].name, "A");
    assert_eq!(toc[0].children.len(), 1);
    assert_eq!(toc[0].children[0].name, "B");
    assert!(toc[0].children[0].children.is_empty());
}

#[test]
fn test_toc_synthesis_empty_input() {
    let toc = build_toc_from_headings(&[]);
    assert!(toc.is_empty());
}

#[test]
fn test_toc_synthesis_deep_chain_then_sibling() {
    let headings = vec![
        heading(1, "A", 0),
        heading(2, "B", 1),
        heading(3, "C", 2),
        heading(2, "D", 3),
    ];
    let toc = build_toc_from_headings(&headings);
    assert_eq!(toc.len(), 1);
    assert_eq!(toc[0].children.len(), 2);
    assert_eq!(toc[0].children[0].name, "B");
    assert_eq!(toc[0].children[0].children.len(), 1);
    assert_eq!(toc[0].children[0].children[0].name, "C");
    assert_eq!(toc[0].children[1].name, "D");
}

#[test]
fn test_toc_from_buffer_uses_heading_markers_only() {
    let mut buffer = DocumentBuffer::new();
    buffer.append("Alpha\nBody\nBeta\n");
    buffer.add_marker(Marker::new(MarkerType::Heading1, 0).with_text(String::from("Alpha")).with_level(1));
    buffer.add_marker(Marker::new(MarkerType::Link, 6).with_text(String::from("Body")));
    buffer.add_marker(Marker::new(MarkerType::Heading2, 11).with_text(String::from("Beta")).with_level(2));
    let toc = build_toc_from_buffer(&buffer);
    assert_eq!(toc.len(), 1);
    assert_eq!(toc[0].name, "Alpha");
    assert_eq!(toc[0].children.len(), 1);
    assert_eq!(toc[0].children[0].name, "Beta");
    assert_eq!(toc[0].children[0].offset, 11);
}

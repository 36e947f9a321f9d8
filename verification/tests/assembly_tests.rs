use paperback::bridge::document_to_ffi;
use paperback::bridge::flatten_toc_items;
use paperback::chm::ChmFileContent;
use paperback::chm::ChmFileInput;
use paperback::chm::assemble_chm;
use paperback::chm::build_ordered_file_list;
use paperback::document::DocumentBuffer;
use paperback::document::MarkerType;
use paperback::document::TocItem;
use paperback::docx::ParagraphPiece;
use paperback::docx::RunPiece;
use paperback::docx::assemble_docx_paragraph;
use paperback::epub::LinkInfo;
use paperback::epub::ListInfo;
use paperback::epub::ListItemInfo;
use paperback::epub::NavPointInput;
use paperback::epub::SectionContent;
use paperback::epub::SpineSection;
use paperback::epub::assemble_epub;
use paperback::error::ParseError;
use paperback::pdf::assemble_pdf_pages;
use paperback::strmap::StrMap;
use paperback::toc::HeadingInfo;

fn simple_section(path: &str, text: &str) -> SpineSection {
    SpineSection::Converted {
        path: String::from(path),
        content: SectionContent {
            text: String::from(text),
            headings: vec![HeadingInfo { text: String::from("Head"), level: 1, offset: 0 }],
            links: vec![LinkInfo {
                offset: 5,
                text: String::from("go"),
                reference: String::from("ch2.html#top"),
            }],
            lists: vec![ListInfo { offset: 2, item_count: 3 }],
            list_items: vec![ListItemInfo { offset: 3, text: String::from("item"), level: 1 }],
            id_positions: vec![(String::from("anchor"), 4)],
        },
    }
}

#[test]
fn test_assemble_epub_single_section() {
    let doc = assemble_epub(
        "books/My Book.epub",
        Some(String::from("  ")),
        Some(String::from("  An Author ")),
        vec![simple_section("text/ch1.html", "Head\n\nbody")],
        vec![String::from("ch1")],
        vec![(String::from("ch1"), String::from("text/ch1.html"))],
        vec![NavPointInput {
            label: String::from("Chapter 1"),
            content: String::from("text/ch1.html"),
            children: Vec::new(),
        }],
    )
    .unwrap();
    assert_eq!(doc.title, "My Book");
    assert_eq!(doc.author, "An Author");
    assert_eq!(doc.buffer.content, "Head\n\nbody\n");
    let kinds: Vec<MarkerType> = doc.buffer.markers.iter().map(|m| m.marker_type).collect();
    assert_eq!(
        kinds,
        vec![
            MarkerType::SectionBreak,
            MarkerType::Heading1,
            MarkerType::Link,
            MarkerType::List,
            MarkerType::ListItem,
        ]
    );
    assert_eq!(doc.buffer.markers[0].text, "Section 1");
    assert_eq!(doc.buffer.markers[2].reference, "text/ch2.html#top");
    assert_eq!(doc.id_positions.get(&String::from("anchor")), Some(&4));
    assert_eq!(doc.toc_items.len(), 1);
    assert_eq!(doc.toc_items[0].name, "Chapter 1");
    assert_eq!(doc.toc_items[0].offset, 0);
    assert_eq!(doc.spine_items, vec![String::from("ch1")]);
    let limit = doc.buffer.current_position();
    for marker in &doc.buffer.markers {
        assert!(marker.position <= limit);
    }
}

#[test]
fn test_assemble_epub_without_readable_sections() {
    let err = assemble_epub(
        "book.epub",
        None,
        None,
        vec![
            SpineSection::Skipped,
            SpineSection::Unreadable { idref: String::from("a") },
            SpineSection::Failed { idref: String::from("b"), error: String::from("bad") },
        ],
        Vec::new(),
        Vec::new(),
        Vec::new(),
    )
    .unwrap_err();
    match err {
        ParseError::FormatInvalid(msg) => {
            assert_eq!(
                msg,
                "EPUB has no readable content (failed to convert spine items: a, b (bad))"
            );
        },
        other => panic!("unexpected error: {:?}", other),
    }
}

#[test]
fn test_assemble_chm_binds_anchors_and_resolves_toc() {
    let files = vec![
        ChmFileInput { path: String::from("/Pages/One.htm"), content: None },
        ChmFileInput {
            path: String::from("/Pages/Two.htm"),
            content: Some(ChmFileContent {
                text: String::from("Hello there"),
                headings: vec![HeadingInfo { text: String::from("Hello"), level: 2, offset: 0 }],
                links: vec![LinkInfo {
                    offset: 6,
                    text: String::from("there"),
                    reference: String::from("three.htm"),
                }],
                id_positions: vec![(String::from("x"), 6)],
            }),
        },
    ];
    let toc = vec![TocItem::new(
        String::from("Two"),
        String::from("Pages\\Two.htm#x"),
        usize::MAX,
    )];
    let doc = assemble_chm("help/Manual.chm", None, files, &toc);
    assert_eq!(doc.title, "Manual");
    assert_eq!(doc.buffer.content, "Hello there\n");
    assert_eq!(doc.id_positions.get(&String::from("/pages/two.htm#x")), Some(&6));
    assert_eq!(doc.buffer.markers.len(), 2);
    assert_eq!(doc.buffer.markers[1].reference, "/Pages/three.htm");
    assert_eq!(doc.toc_items[0].offset, 6);
    let titled = assemble_chm("help/Manual.chm", Some(String::from("Given")), Vec::new(), &[]);
    assert_eq!(titled.title, "Given");
}

#[test]
fn test_ordered_file_list_follows_outline() {
    let files = vec![
        String::from("/b.htm"),
        String::from("/a.htm"),
        String::from("/c.htm"),
    ];
    let mut root = TocItem::new(String::from("A"), String::from("a.htm"), 0);
    root.add_child(TocItem::new(String::from("C"), String::from("C.HTM#frag"), 0));
    let ordered = build_ordered_file_list(&files, &[root]);
    assert_eq!(
        ordered,
        vec![String::from("/a.htm"), String::from("/c.htm"), String::from("/b.htm")]
    );
    let unordered = build_ordered_file_list(&files, &[]);
    assert_eq!(unordered, files);
}

#[test]
fn test_assemble_pdf_pages() {
    let pages = vec![
        Some(String::from("  first   page \nline two ")),
        None,
        Some(String::from("third")),
    ];
    let (buffer, offsets) = assemble_pdf_pages(&pages);
    assert_eq!(buffer.content, "first page\nline two\nthird\n");
    assert_eq!(offsets, vec![0, 20, 20]);
    assert_eq!(buffer.markers.len(), 3);
    assert_eq!(buffer.markers[0].text, "Page 1");
    assert_eq!(buffer.markers[2].text, "Page 3");
    assert_eq!(buffer.markers[2].position, 20);
}

#[test]
fn test_flatten_toc_is_preorder() {
    let mut root = TocItem::new(String::from("A"), String::new(), 0);
    let mut b = TocItem::new(String::from("B"), String::new(), 1);
    b.add_child(TocItem::new(String::from("C"), String::new(), 2));
    root.add_child(b);
    let items = vec![root, TocItem::new(String::from("D"), String::new(), 3)];
    let flat = flatten_toc_items(&items);
    let names: Vec<&str> = flat.iter().map(|t| t.name.as_str()).collect();
    assert_eq!(names, vec!["A", "B", "C", "D"]);
}

#[test]
fn test_document_to_ffi() {
    let parser = paperback::markdown::MarkdownParser;
    let doc = parser.parse_bytes("n.md", b"# A\n\nsee [l](https://e.com)\n").unwrap();
    let ffi = document_to_ffi(doc);
    assert_eq!(ffi.title, "n");
    assert!(ffi.markers.iter().any(|m| m.marker_type == 0));
    assert!(ffi.markers.iter().any(|m| m.marker_type == 9));
    assert_eq!(ffi.toc_items.len(), 1);
    assert_eq!(ffi.toc_items[0].name, "A");
    assert_eq!(ffi.stats.char_count, ffi.content.chars().count());
}

#[test]
fn test_docx_paragraph_paragraph_style_heading() {
    let mut buffer = DocumentBuffer::new();
    buffer.append("before\n");
    let mut ids: StrMap<usize> = StrMap::new();
    let pieces = vec![
        ParagraphPiece::Style { heading_level: 2 },
        ParagraphPiece::Bookmark { name: String::from("mark") },
        ParagraphPiece::Run(RunPiece { text: String::from("  Chapter "), heading_level: 0 }),
        ParagraphPiece::Run(RunPiece { text: String::from("Two  "), heading_level: 0 }),
    ];
    let heading = assemble_docx_paragraph(&mut buffer, &mut ids, &pieces);
    assert_eq!(heading, Some(2));
    assert_eq!(buffer.content, "before\nChapter Two\n");
    assert_eq!(ids.get(&String::from("mark")), Some(&7));
    assert_eq!(buffer.markers.len(), 1);
    assert_eq!(buffer.markers[0].marker_type, MarkerType::Heading2);
    assert_eq!(buffer.markers[0].position, 7);
    assert_eq!(buffer.markers[0].text, "Chapter Two");
}

#[test]
fn test_docx_paragraph_run_style_heading_and_links() {
    let mut buffer = DocumentBuffer::new();
    let mut ids: StrMap<usize> = StrMap::new();
    let pieces = vec![
        ParagraphPiece::Run(RunPiece { text: String::from("Title"), heading_level: 3 }),
        ParagraphPiece::Hyperlink {
            target: String::from("#sect"),
            runs: vec![RunPiece { text: String::from(" link"), heading_level: 0 }],
        },
        ParagraphPiece::FieldLink {
            target: String::from("https://e.com"),
            display: String::from(" more"),
        },
    ];
    let heading = assemble_docx_paragraph(&mut buffer, &mut ids, &pieces);
    assert_eq!(heading, Some(3));
    assert_eq!(buffer.content, "Title link more\n");
    // Two link markers in piece order, then the heading marker built from
    // the runs styled at the chosen level.
    assert_eq!(buffer.markers.len(), 3);
    assert_eq!(buffer.markers[0].marker_type, MarkerType::Link);
    assert_eq!(buffer.markers[0].position, 5);
    assert_eq!(buffer.markers[0].reference, "#sect");
    assert_eq!(buffer.markers[1].position, 10);
    assert_eq!(buffer.markers[1].reference, "https://e.com");
    assert_eq!(buffer.markers[2].marker_type, MarkerType::Heading3);
    assert_eq!(buffer.markers[2].position, 0);
    assert_eq!(buffer.markers[2].text, "Title");
}

#[test]
fn test_docx_paragraph_without_heading() {
    let mut buffer = DocumentBuffer::new();
    let mut ids: StrMap<usize> = StrMap::new();
    let pieces = vec![
        ParagraphPiece::Run(RunPiece { text: String::from("plain body"), heading_level: 0 }),
        ParagraphPiece::Hyperlink { target: String::new(), runs: Vec::new() },
    ];
    let heading = assemble_docx_paragraph(&mut buffer, &mut ids, &pieces);
    assert_eq!(heading, None);
    assert_eq!(buffer.content, "plain body\n");
    assert!(buffer.markers.is_empty());
}

use paperback::document::MarkerType;
use paperback::document::ParserFlags;
use paperback::error::ParseError;
use paperback::registry::ParserRegistry;
use paperback::registry::get_all_parsers;
use paperback::registry::get_parser_name_for_extension;
use paperback::registry::resolve_parser_for_path;

#[test]
fn test_registry_has_parsers() {
    let parsers = get_all_parsers();
    assert!(!parsers.is_empty(), "Registry should have parsers");
}

#[test]
fn test_extension_lookup() {
    assert!(get_parser_name_for_extension("txt").is_some());
    assert!(get_parser_name_for_extension("md").is_some());
}

#[test]
fn test_extension_lookup_is_case_insensitive() {
    let upper = get_parser_name_for_extension("TXT");
    let lower = get_parser_name_for_extension("txt");
    assert_eq!(upper, lower);
    assert_eq!(upper, Some(String::from("Text Files")));
}

#[test]
fn test_unknown_extension_is_unsupported() {
    assert!(get_parser_name_for_extension("xyz").is_none());
    let err = resolve_parser_for_path("book.xyz").unwrap_err();
    assert!(matches!(err, ParseError::UnsupportedExtension(_)));
    let err = resolve_parser_for_path("no_extension").unwrap_err();
    assert!(matches!(err, ParseError::UnsupportedExtension(_)));
}

#[test]
fn test_dispatch_for_known_paths() {
    assert_eq!(resolve_parser_for_path("dir/book.EPUB").unwrap(), "EPUB Books");
    assert_eq!(resolve_parser_for_path("notes.md").unwrap(), "Markdown Files");
    assert_eq!(resolve_parser_for_path("help.chm").unwrap(), "Compiled HTML Help files");
    assert_eq!(resolve_parser_for_path("paper.pdf").unwrap(), "PDF Documents");
}

#[test]
fn test_registry_lookup_by_name_and_extension() {
    let registry = ParserRegistry::global();
    let by_name = registry.get_parser("Text Files").expect("registered");
    assert_eq!(by_name.extensions, vec!["txt".to_string(), "log".to_string()]);
    let by_ext = registry.get_parser_for_extension("LOG").expect("claimed");
    assert_eq!(by_ext.name, "Text Files");
    assert!(registry.get_parser_for_extension("xyz").is_none());
}

#[test]
fn test_marker_type_round_trip() {
    let kinds = [
        MarkerType::Heading1,
        MarkerType::Heading6,
        MarkerType::PageBreak,
        MarkerType::SectionBreak,
        MarkerType::TocItem,
        MarkerType::Link,
        MarkerType::List,
        MarkerType::ListItem,
    ];
    for kind in kinds {
        assert_eq!(MarkerType::from_int(kind.to_int()), Some(kind));
    }
    assert_eq!(MarkerType::from_int(12), None);
    assert_eq!(MarkerType::from_int(-1), None);
}

#[test]
fn test_parser_flags_membership_and_union() {
    let flags = ParserFlags::supports_sections().union(ParserFlags::supports_toc());
    assert!(flags.contains(ParserFlags::supports_sections()));
    assert!(flags.contains(ParserFlags::supports_toc()));
    assert!(!flags.contains(ParserFlags::supports_pages()));
    assert_eq!(ParserFlags::none().bits(), 0);
}

#[test]
fn test_error_messages_carry_through() {
    assert_eq!(ParseError::OpenFailure(String::from("gone")).message(), "gone");
    assert_eq!(ParseError::FormatInvalid(String::from("bad")).message(), "bad");
    assert_eq!(ParseError::PasswordRequired(String::from("locked")).message(), "locked");
    assert_eq!(ParseError::UnsupportedExtension(String::from("what")).message(), "what");
    assert_eq!(ParseError::EmptyInput(String::from("empty")).message(), "empty");
}

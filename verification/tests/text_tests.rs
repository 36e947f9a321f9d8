use paperback::textutil::collapse_whitespace;
use paperback::textutil::remove_soft_hyphens;
use paperback::textutil::trim_string;
use paperback::textutil::url_decode;

#[test]
fn test_remove_soft_hyphens() {
    assert_eq!(remove_soft_hyphens("hel\u{00AD}lo"), "hello");
    assert_eq!(remove_soft_hyphens("no hyphens"), "no hyphens");
    assert_eq!(remove_soft_hyphens("mul\u{00AD}ti\u{00AD}ple"), "multiple");
}

#[test]
fn test_url_decode() {
    assert_eq!(url_decode("hello+world"), "hello world");
    assert_eq!(url_decode("hello%20world"), "hello world");
    assert_eq!(url_decode("test%2Fpath"), "test/path");
    assert_eq!(url_decode("100%25"), "100%");
    assert_eq!(url_decode("caf%C3%A9"), "caf\u{e9}");
}

#[test]
fn test_collapse_whitespace() {
    assert_eq!(collapse_whitespace("hello   world"), "hello world");
    assert_eq!(collapse_whitespace("hello\n\nworld"), "hello world");
    assert_eq!(collapse_whitespace("hello\t\tworld"), "hello world");
    assert_eq!(collapse_whitespace("  spaces  "), "  spaces ");
    assert_eq!(collapse_whitespace("hello\u{00A0}\u{00A0}world"), "hello world");
}

#[test]
fn test_trim_string() {
    assert_eq!(trim_string("  hello  "), "hello");
    assert_eq!(trim_string("\n\nhello\n\n"), "hello");
    assert_eq!(trim_string("\u{00A0}hello\u{00A0}"), "hello");
    assert_eq!(trim_string("hello"), "hello");
}

#[test]
fn test_display_and_lowercase_helpers() {
    assert_eq!(paperback::textutil::display_len("h\u{e9}llo"), 5);
    assert_eq!(paperback::textutil::to_ascii_lowercase("MiXeD.TXT"), "mixed.txt");
    assert_eq!(paperback::textutil::usize_to_string(9), "9");
    assert_eq!(paperback::textutil::usize_to_string(1203), "1203");
}

use paperback::encoding::convert_to_utf8;

#[test]
fn test_utf8_with_bom() {
    let input = b"\xEF\xBB\xBFHello";
    assert_eq!(convert_to_utf8(input), "Hello");
}

#[test]
fn test_utf8_without_bom() {
    let input = b"Hello World";
    assert_eq!(convert_to_utf8(input), "Hello World");
}

#[test]
fn test_utf16le_with_bom() {
    let input = b"\xFF\xFEH\x00e\x00l\x00l\x00o\x00";
    assert_eq!(convert_to_utf8(input), "Hello");
}

#[test]
fn test_utf16be_with_bom() {
    let input = b"\xFE\xFF\x00H\x00e\x00l\x00l\x00o";
    assert_eq!(convert_to_utf8(input), "Hello");
}

#[test]
fn test_iso_8859_1() {
    let input = b"Test\xA0String";
    let result = convert_to_utf8(input);
    assert!(result.contains("Test"));
    assert!(result.contains("String"));
}

#[test]
fn test_utf32_le_with_bom() {
    let input = b"\xFF\xFE\x00\x00A\x00\x00\x00b\x00\x00\x00";
    assert_eq!(convert_to_utf8(input), "Ab");
}

#[test]
fn test_utf32_be_with_bom() {
    let input = b"\x00\x00\xFE\xFF\x00\x00\x00A";
    assert_eq!(convert_to_utf8(input), "A");
}

#[test]
fn test_utf32_skips_invalid_scalars() {
    // A lone surrogate (U+D800) is dropped; the scalar after it survives.
    let input = b"\xFF\xFE\x00\x00\x00\xD8\x00\x00B\x00\x00\x00";
    assert_eq!(convert_to_utf8(input), "B");
}

#[test]
fn test_windows1252_fallback() {
    // Odd length and invalid UTF-8, so both UTF-16 readings report errors
    // and the windows-1252 arm decides.
    let input = b"caf\xE9!";
    assert_eq!(convert_to_utf8(input), "caf\u{e9}!");
}

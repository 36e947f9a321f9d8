use std::io::Cursor;
use std::io::Write;

use paperback::ziputil::find_zip_entry;
use paperback::ziputil::read_zip_entry_by_index;
use paperback::ziputil::read_zip_entry_by_name;

use zip::ZipArchive;
use zip::ZipWriter;
use zip::write::SimpleFileOptions;

fn sample_archive() -> ZipArchive<Cursor<Vec<u8>>> {
    let mut zip = ZipWriter::new(Cursor::new(Vec::new()));
    zip.start_file("hello.txt", SimpleFileOptions::default()).unwrap();
    zip.write_all(b"Hello world!").unwrap();
    zip.start_file("config%20file.ini", SimpleFileOptions::default()).unwrap();
    zip.write_all(b"[section]\nvalue=1").unwrap();
    zip.start_file("weird%20name.txt", SimpleFileOptions::default()).unwrap();
    zip.write_all(b"decoded").unwrap();
    let cursor = zip.finish().unwrap();
    ZipArchive::new(cursor).unwrap()
}

#[test]
fn test_zip_helpers() {
    let mut archive = sample_archive();
    let text = read_zip_entry_by_name(&mut archive, "hello.txt").unwrap();
    assert_eq!(text, "Hello world!");
    let index = find_zip_entry(&archive, "hello.txt");
    assert!(index.is_some());
    let index = find_zip_entry(&archive, "config file.ini");
    assert!(index.is_some());
    let index = find_zip_entry(&archive, "weird name.txt");
    assert!(index.is_some());
    let index = find_zip_entry(&archive, "does_not_exist.txt");
    assert!(index.is_none());
}

#[test]
fn test_zip_decoded_lookup_points_at_stored_entry() {
    let mut archive = sample_archive();
    let index = find_zip_entry(&archive, "weird name.txt").unwrap();
    let text = read_zip_entry_by_index(&mut archive, index).unwrap();
    assert_eq!(text, "decoded");
}

#[test]
fn test_zip_missing_entry_is_an_error() {
    let mut archive = sample_archive();
    assert!(read_zip_entry_by_name(&mut archive, "absent.txt").is_err());
}

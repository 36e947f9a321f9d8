use paperback::document::TocItem;
use paperback::resolve::UNRESOLVED_OFFSET;
use paperback::resolve::calculate_offset_from_reference;
use paperback::resolve::calculate_toc_offsets;
use paperback::resolve::normalize_path;
use paperback::strmap::StrMap;

fn sample_maps() -> (StrMap<usize>, StrMap<usize>) {
    let mut files: StrMap<usize> = StrMap::new();
    files.insert(String::from("/ch1.html"), 100);
    let mut ids: StrMap<usize> = StrMap::new();
    ids.insert(String::from("/ch1.html#s2"), 120);
    (files, ids)
}

#[test]
fn test_reference_resolution_fragment_file_and_sentinel() {
    let (files, ids) = sample_maps();
    assert_eq!(calculate_offset_from_reference("ch1.html#s2", &files, &ids), 120);
    assert_eq!(calculate_offset_from_reference("ch1.html#missing", &files, &ids), 100);
    assert_eq!(calculate_offset_from_reference("missing.html#x", &files, &ids), UNRESOLVED_OFFSET);
}

#[test]
fn test_reference_resolution_is_idempotent() {
    let (files, ids) = sample_maps();
    let first = calculate_offset_from_reference("ch1.html#s2", &files, &ids);
    let second = calculate_offset_from_reference("ch1.html#s2", &files, &ids);
    assert_eq!(first, second);
}

#[test]
fn test_normalize_path_lowers_and_slashes() {
    assert_eq!(normalize_path("Dir\\Page.HTML"), "/dir/page.html");
    assert_eq!(normalize_path("/already/lower"), "/already/lower");
    assert_eq!(normalize_path(""), "/");
}

#[test]
fn test_toc_offsets_resolved_in_place() {
    let (files, ids) = sample_maps();
    let mut root = TocItem::new(String::from("One"), String::from("ch1.html#s2"), UNRESOLVED_OFFSET);
    root.add_child(TocItem::new(String::from("Two"), String::from("ch1.html"), UNRESOLVED_OFFSET));
    root.add_child(TocItem::new(String::from("Keep"), String::new(), 7));
    let items = vec![root];
    let resolved = calculate_toc_offsets(&items, &files, &ids);
    assert_eq!(resolved.len(), 1);
    assert_eq!(resolved[0].offset, 120);
    assert_eq!(resolved[0].children[0].offset, 100);
    assert_eq!(resolved[0].children[1].offset, 7);
}

#[test]
fn test_last_insert_wins_in_map() {
    let mut ids: StrMap<usize> = StrMap::new();
    ids.insert(String::from("k"), 1);
    ids.insert(String::from("k"), 2);
    assert_eq!(ids.get(&String::from("k")), Some(&2));
    assert_eq!(ids.get(&String::from("absent")), None);
    assert!(ids.contains_key(&String::from("k")));
}

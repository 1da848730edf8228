use anyflipdl::temp::{parse_u32, DirEntryInfo, TempStorage};
use std::path::PathBuf;

fn entry(name: &str, is_file: bool, size: u64) -> DirEntryInfo {
    DirEntryInfo { name: Some(name.to_string()), is_file, size: Some(size) }
}

#[test]
fn page_path_returns_correct_path() {
    let base = PathBuf::from("/tmp/anyflipdl_test_temp/fixed");
    let storage = TempStorage::with_base_dir(base.clone());
    let path = storage.page_path("abc", 5);
    assert!(path.ends_with("abc/5.webp"));
    assert!(path.starts_with(&base));
}

#[test]
fn page_path_is_under_the_download_dir() {
    let storage = TempStorage::with_base_dir(PathBuf::from("/tmp/base"));
    assert_eq!(storage.page_path("abc", 7), PathBuf::from("/tmp/base/abc/7.webp"));
    assert_eq!(storage.download_dir("abc"), PathBuf::from("/tmp/base/abc"));
    assert_eq!(storage.base_dir(), &PathBuf::from("/tmp/base"));
    assert_eq!(TempStorage::page_file_name(12), "12.webp");
}

#[test]
fn a_page_is_cached_when_its_file_is_not_empty() {
    assert!(TempStorage::page_exists(true, Some(4)));
    assert!(!TempStorage::page_exists(true, Some(0)));
    assert!(!TempStorage::page_exists(false, None));
    assert!(!TempStorage::page_exists(true, None));
}

#[test]
fn staleness_is_strictly_past_a_day() {
    assert!(!TempStorage::is_stale(None));
    assert!(!TempStorage::is_stale(Some((86400, 0))));
    assert!(TempStorage::is_stale(Some((86400, 1))));
    assert!(TempStorage::is_stale(Some((90000, 0))));
    assert!(!TempStorage::is_stale(Some((10, 999))));
}

#[test]
fn cached_pages_are_sorted_and_filtered() {
    let entries = vec![
        entry("5.webp", true, 10),
        entry("2.webp", true, 10),
        entry("3.webp", true, 0),
        entry("notes.txt", true, 10),
        entry("7.webp", false, 10),
        entry("x.webp", true, 10),
        entry(".webp", true, 10),
        entry("1.WEBP", true, 10),
        entry("+4.webp", true, 10),
        entry("1.webp", true, 3),
        DirEntryInfo { name: None, is_file: true, size: Some(3) },
        DirEntryInfo { name: Some("9.webp".to_string()), is_file: true, size: None },
    ];
    assert_eq!(TempStorage::cached_pages(&entries), vec![1, 2, 5]);
    assert_eq!(TempStorage::cached_pages(&vec![]), Vec::<u32>::new());
}

#[test]
fn cached_pages_take_only_canonical_names_once() {
    let entries = vec![
        entry("05.webp", true, 10),
        entry("+6.webp", true, 10),
        entry("7.webp", true, 10),
        entry("7.webp", true, 10),
        entry("0.webp", true, 10),
        entry("4294967296.webp", true, 10),
        entry("4294967295.webp", true, 10),
    ];
    assert_eq!(TempStorage::cached_pages(&entries), vec![0, 7, 4294967295]);
}

#[test]
fn page_numbers_parse_as_u32() {
    let digits: Vec<char> = "4294967295".chars().collect();
    assert_eq!(parse_u32(&digits), Some(u32::MAX));
    let over: Vec<char> = "4294967296".chars().collect();
    assert_eq!(parse_u32(&over), None);
    let empty: Vec<char> = Vec::new();
    assert_eq!(parse_u32(&empty), None);
}

#[test]
fn cached_pages_list_exactly_the_existing_pages() {
    let entries = vec![
        entry("3.webp", true, 100),
        entry("1.webp", true, 100),
        entry("5.webp", true, 100),
        entry("notes.txt", true, 100),
        entry("2.webp", true, 0),
    ];
    let listed = TempStorage::cached_pages(&entries);
    assert_eq!(listed, vec![1, 3, 5]);
    for e in &entries {
        let page: Option<u32> = e.name.as_ref().and_then(|n| n.strip_suffix(".webp")).and_then(|s| s.parse().ok());
        if let Some(p) = page {
            assert_eq!(listed.contains(&p), TempStorage::page_exists(e.is_file, e.size));
        }
    }
}

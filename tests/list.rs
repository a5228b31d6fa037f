use stash::{list, CustomError, DateTime, Entry};

fn record(path: &str) -> String {
    let d = DateTime::new(2024, 6, 1, 12, 0, 0).unwrap();
    Entry::new(path, Some(d)).unwrap().to_string()
}

#[test]
fn listing_empty_directory_contains_no_entries() {
    let entries = list(true, &vec![]);
    assert_eq!(0, entries.len());
}

#[test]
fn listing_directory_with_one_valid_entry_contains_one() {
    let entry = record("relative/path/to/nonexistant/file");
    let filename = format!("/tmp/stash-test-dir/info/{}.trashinfo", "f1");
    let entries = list(true, &vec![(filename, Some(entry))]);
    assert_eq!(1, entries.len());
    assert!(entries[0].is_ok());
}

#[test]
fn listing_without_info_directory_is_empty() {
    let files = vec![("/t/info/a.trashinfo".to_string(), Some(record("a")))];
    assert!(list(false, &files).is_empty());
}

#[test]
fn corrupt_record_is_isolated() {
    let files = vec![
        ("/t/info/a.trashinfo".to_string(), Some(record("a"))),
        ("/t/info/b.trashinfo".to_string(), Some("garbage".to_string())),
        ("/t/info/c.trashinfo".to_string(), None),
    ];
    let entries = list(true, &files);
    assert_eq!(entries.len(), 3);
    let a = entries[0].as_ref().unwrap();
    assert_eq!(a.path, "a");
    assert_eq!(a.location.as_deref(), Some("/t/info/a.trashinfo"));
    assert_eq!(
        entries[1],
        Err(CustomError::TrashInfoParseFailure("/t/info/b.trashinfo".to_string()))
    );
    assert_eq!(
        entries[2],
        Err(CustomError::TrashInfoParseFailure("/t/info/c.trashinfo".to_string()))
    );
}

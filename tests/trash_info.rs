use stash::trash_info::local_datetime;
use stash::{DateTime, Entry};

fn date(y: i32, mo: u8, d: u8, h: u8, mi: u8, s: u8) -> DateTime {
    DateTime::new(y, mo, d, h, mi, s).unwrap()
}

#[test]
fn valid_trash_info_entry_parses() {
    const PATH: &str = "/tmp/testfile";
    let datetime = date(2031, 7, 19, 23, 59, 7);
    let expected = Entry::new(PATH, Some(datetime)).unwrap();

    let mut out = String::new();
    out.push_str("[Trash Info]\n");
    out.push_str(&format!("Path={PATH}\n"));
    out.push_str("DeletionDate=2031-07-19T23:59:07\n");

    assert_eq!(Some(expected), Entry::parse(&out));
}

#[test]
fn serialized_text_is_three_lines() {
    let e = Entry::new("home/u/doc.txt", Some(date(2024, 1, 5, 3, 4, 9))).unwrap();
    assert_eq!(
        e.to_string(),
        "[Trash Info]\nPath=home/u/doc.txt\nDeletionDate=2024-01-05T03:04:09\n"
    );
}

#[test]
fn parse_of_serialized_gives_entry_back() {
    for (p, d) in [
        ("a", date(0, 1, 1, 0, 0, 0)),
        ("dir/with spaces/and=equals", date(9999, 12, 31, 23, 59, 59)),
        ("", date(2000, 2, 29, 12, 30, 45)),
    ] {
        let e = Entry::new(p, Some(d)).unwrap();
        assert_eq!(Entry::parse(&e.to_string()), Some(e));
    }
}

#[test]
fn parse_accepts_missing_final_line_break() {
    let e = Entry::parse("[Trash Info]\nPath=x\nDeletionDate=2020-10-10T10:10:10").unwrap();
    assert_eq!(e.path, "x");
    assert_eq!(e.datetime, date(2020, 10, 10, 10, 10, 10));
    assert_eq!(e.location, None);
}

#[test]
fn malformed_metadata_is_rejected() {
    let bad = [
        "[Trash Inf]\nPath=x\nDeletionDate=2020-10-10T10:10:10\n",
        "[Trash Info]\nPathx\nDeletionDate=2020-10-10T10:10:10\n",
        "[Trash Info]\nPath=x\nDeletionDate2020-10-10T10:10:10\n",
        "[Trash Info]\nPath=x\nDeletion=2020-10-10T10:10:10\n",
        "[Trash Info]\nPath=x\nDeletionDate=2023-02-29T10:10:10\n",
        "[Trash Info]\nPath=x\nDeletionDate=2020-10-10 10:10:10\n",
        "[Trash Info]\nPath=x\nDeletionDate=2020-10-10T24:00:00\n",
        "[Trash Info]\nPath=x\nDeletionDate=2020-10-10T10:10:10\nExtra=1\n",
        "[Trash Info]\nPath=x\nDeletionDate=2020-10-10T10:10:10\n\n",
        "[Trash Info]\nPath=x\n",
        "",
    ];
    for t in bad {
        assert_eq!(Entry::parse(t), None, "{t:?}");
    }
}

#[test]
fn from_file_records_location_or_names_it() {
    let text = "[Trash Info]\nPath=a/b\nDeletionDate=2022-03-04T05:06:07\n";
    let e = Entry::from_file("/t/info/b.trashinfo", text).unwrap();
    assert_eq!(e.location.as_deref(), Some("/t/info/b.trashinfo"));
    assert_eq!(e.path, "a/b");
    let err = Entry::from_file("/t/info/c.trashinfo", "junk").unwrap_err();
    assert_eq!(
        err,
        stash::CustomError::TrashInfoParseFailure("/t/info/c.trashinfo".to_string())
    );
}

#[test]
fn payload_path_is_derived_from_location() {
    let text = "[Trash Info]\nPath=a\nDeletionDate=2022-03-04T05:06:07\n";
    let e = Entry::from_file("/t/info/x.txt.trashinfo", text).unwrap();
    assert_eq!(e.file().as_deref(), Some("/t/files/x.txt"));
    assert!(!e.missing_file(true));
    assert!(e.missing_file(false));
    let top = Entry::from_file("/info/.hidden", text).unwrap();
    assert_eq!(top.file().as_deref(), Some("/files/.hidden"));
    let fresh = Entry::new("a", Some(date(2022, 3, 4, 5, 6, 7))).unwrap();
    assert_eq!(fresh.file(), None);
    assert!(fresh.missing_file(true));
}

#[test]
fn datetime_rejects_impossible_dates() {
    assert!(DateTime::new(2023, 2, 29, 0, 0, 0).is_none());
    assert!(DateTime::new(2024, 2, 29, 0, 0, 0).is_some());
    assert!(DateTime::new(1900, 2, 29, 0, 0, 0).is_none());
    assert!(DateTime::new(2000, 2, 29, 0, 0, 0).is_some());
    assert!(DateTime::new(2024, 4, 31, 0, 0, 0).is_none());
    assert!(DateTime::new(2024, 13, 1, 0, 0, 0).is_none());
    assert!(DateTime::new(-1, 1, 1, 0, 0, 0).is_none());
    assert!(DateTime::new(2024, 1, 1, 0, 60, 0).is_none());
}

#[test]
fn local_time_when_known_is_valid() {
    if let Ok(d) = local_datetime() {
        assert!(DateTime::new(d.year as i32, d.month, d.day, d.hour, d.minute, d.second).is_some());
    }
}

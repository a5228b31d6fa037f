use stash::trash::select_dir;
use stash::{trash, CustomError, DateTime, Dir, Mountpoint, TrashMode};

fn mount(path: &str, home: bool) -> Mountpoint {
    Mountpoint { filesystem: "dev".into(), mountpoint: path.into(), contains_home: home }
}

fn home_dir() -> Dir {
    Dir::Home(mount("/", true), "/home/u/.local/share/Trash".to_string())
}

fn when() -> DateTime {
    DateTime::new(2024, 3, 9, 8, 7, 6).unwrap()
}

fn names(v: &[&str]) -> Vec<String> {
    v.iter().map(|s| s.to_string()).collect()
}

#[test]
fn longest_mount_prefix_is_selected() {
    let dirs = vec![
        Dir::new(mount("/", false), 1, None).unwrap(),
        Dir::new(mount("/mnt/data", false), 1, None).unwrap(),
    ];
    assert_eq!(select_dir(&dirs, "/mnt/data/sub/file"), Some(1));
    assert_eq!(select_dir(&dirs, "/mnt/data"), Some(1));
    assert_eq!(select_dir(&dirs, "/mnt/database/file"), Some(0));
    let reversed = vec![dirs[1].clone(), dirs[0].clone()];
    assert_eq!(select_dir(&reversed, "/mnt/data/sub/file"), Some(0));
    let only_data = vec![dirs[1].clone()];
    assert_eq!(select_dir(&only_data, "/home/x"), None);
}

#[test]
fn trash_reports_missing_file_and_missing_dir() {
    let dirs = vec![Dir::new(mount("/mnt/data", false), 1, None).unwrap()];
    assert_eq!(
        trash("/nope", false, &dirs),
        Err(CustomError::BadQueryFileNotFound("/nope".to_string()))
    );
    assert_eq!(
        trash("/home/x", true, &dirs),
        Err(CustomError::TrashDirNotFound("/home/x".to_string()))
    );
    assert_eq!(trash("/mnt/data/./a/../b", true, &dirs), Ok(0));
}

#[test]
fn relative_target_is_made_absolute() {
    let dirs = vec![Dir::new(mount("/", false), 1, None).unwrap()];
    assert_eq!(trash("some/relative/file", true, &dirs), Ok(0));
}

#[test]
fn move_into_home_trash_records_path_below_mount() {
    let p = home_dir().place_at("/home/u/doc.txt", "/home/u/.local/share/Trash", &vec![], &vec![], when()).unwrap();
    assert_eq!(p.name, "doc.txt");
    assert_eq!(p.files_path, "/home/u/.local/share/Trash/files/doc.txt");
    assert_eq!(p.info_path, "/home/u/.local/share/Trash/info/doc.txt.trashinfo");
    assert_eq!(p.metadata, "[Trash Info]\nPath=home/u/doc.txt\nDeletionDate=2024-03-09T08:07:06\n");
    assert!(TrashMode::Move.commits());
    assert!(TrashMode::Copy.commits());
}

#[test]
fn simulate_mode_commits_nothing() {
    assert!(!TrashMode::Simulate.commits());
}

#[test]
fn second_file_of_same_name_gets_suffix() {
    let root = "/home/u/.local/share/Trash";
    let first = home_dir().place_at("/home/u/a/doc.txt", root, &vec![], &vec![], when()).unwrap();
    assert_eq!(first.name, "doc.txt");
    let files = names(&["doc.txt"]);
    let info = names(&["doc.txt.trashinfo"]);
    let second = home_dir().place_at("/home/u/b/doc.txt", root, &files, &info, when()).unwrap();
    assert_eq!(second.name, "doc.txt_0");
    assert_eq!(second.files_path, "/home/u/.local/share/Trash/files/doc.txt_0");
    assert_eq!(second.info_path, "/home/u/.local/share/Trash/info/doc.txt_0.trashinfo");
    assert!(second.metadata.contains("Path=home/u/b/doc.txt\n"));
    assert_ne!(first.files_path, second.files_path);
}

#[test]
fn collision_probing_takes_lowest_free_suffix() {
    let d = home_dir();
    let f = |files: &[&str], info: &[&str]| d.find_suitible_name("a", &names(files), &names(info)).unwrap();
    assert_eq!(f(&[], &[]), "a");
    assert_eq!(f(&["a"], &["a.trashinfo"]), "a_0");
    assert_eq!(f(&["a", "a_0"], &["a.trashinfo", "a_0.trashinfo"]), "a_1");
    assert_eq!(f(&["a"], &[]), "a_0");
    assert_eq!(f(&[], &["a.trashinfo"]), "a_0");
    assert_eq!(f(&["a", "a_1"], &["a_0.trashinfo"]), "a_2");
    assert_eq!(f(&["a", "a_0", "a_1", "a_2", "a_3", "a_4", "a_5", "a_6", "a_7", "a_8", "a_9"], &[]), "a_10");
}

#[test]
fn placement_outside_mount_or_without_name_fails() {
    let d = Dir::new(mount("/mnt/data", false), 7, None).unwrap();
    let r = d.place_at("/home/x", "/mnt/data/.Trash-7", &vec![], &vec![], when());
    assert_eq!(
        r.unwrap_err(),
        CustomError::FileNotRelative("/home/x".to_string(), "/mnt/data/.Trash-7".to_string())
    );
    let r = home_dir().place_at("/", "/home/u/.local/share/Trash", &vec![], &vec![], when());
    assert_eq!(r.unwrap_err(), CustomError::CouldNotRetrieveFileName("/".to_string()));
    let p = d.place_at("/mnt/data/x/y.txt", "/mnt/data/.Trash-7", &vec![], &vec![], when()).unwrap();
    assert!(p.metadata.contains("\nPath=x/y.txt\n"));
    assert_eq!(p.files_path, "/mnt/data/.Trash-7/files/y.txt");
}

#[test]
fn placement_recomputes_absolute_path() {
    let p = home_dir()
        .placement("/home/u/./x/../doc.txt", "/home/u/.local/share/Trash", &vec![], &vec![], Some(when()))
        .unwrap();
    assert!(p.metadata.contains("\nPath=home/u/doc.txt\n"));
}

#[test]
fn shared_root_skipped_when_symlink_without_sticky_parent() {
    let d = Dir::new(mount("/mnt/data", false), 7, None).unwrap();
    let r = d.roots(true, 0o777);
    assert_eq!(r.len(), 1);
    assert_eq!(r[0].root, "/mnt/data/.Trash-7");
    assert!(r[0].mandatory);
    let r = d.roots(true, 0o1777);
    assert_eq!(r.len(), 2);
    assert_eq!(r[0].root, "/mnt/data/.Trash");
    assert!(!r[0].mandatory);
    assert!(r[1].mandatory);
    assert_eq!(d.roots(false, 0o755).len(), 2);
    let h = home_dir().roots(true, 0);
    assert_eq!(h.len(), 1);
    assert_eq!(h[0].root, "/home/u/.local/share/Trash");
}

#[test]
fn only_mandatory_failures_are_fatal() {
    let d = Dir::new(mount("/mnt/data", false), 7, None).unwrap();
    let r = d.roots(false, 0);
    assert_eq!(r[0].on_create_failure("q"), None);
    assert_eq!(
        r[1].on_create_failure("q"),
        Some(CustomError::CreateDirectoryFailed("/mnt/data/.Trash-7".to_string(), "q".to_string()))
    );
    assert_eq!(r[0].on_failure(CustomError::PathInvalidUnicode), None);
    assert_eq!(r[1].on_failure(CustomError::PathInvalidUnicode), Some(CustomError::PathInvalidUnicode));
}

#[test]
fn existing_file_with_no_trash_is_not_reported_missing() {
    assert_eq!(
        trash("/home/u/doc.txt", true, &vec![]),
        Err(CustomError::TrashDirNotFound("/home/u/doc.txt".to_string()))
    );
    let dirs = vec![
        Dir::new(mount("/", false), 1, None).unwrap(),
        Dir::new(mount("/home", false), 1, None).unwrap(),
    ];
    assert_eq!(trash("/home/u/doc.txt", true, &dirs), Ok(1));
    assert_eq!(trash("/homework/doc.txt", true, &dirs), Ok(0));
}

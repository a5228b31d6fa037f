use stash::mountpoint::{get_home_trash_dir, mark_home, mountpoints, parse_mount_table};
use stash::{CustomError, Dir, Mountpoint};

const TABLE: &str = "sysfs /sys sysfs rw 0 0\n/dev/sda1 / ext4 rw 0 0\n/dev/sdb1 /home ext4 rw 0 0\n/dev/sdc1 /mnt/data xfs rw 0 0\n";

#[test]
fn mount_table_lines_give_device_and_path() {
    let ms = parse_mount_table(TABLE, "/proc/mounts").unwrap();
    assert_eq!(ms.len(), 4);
    assert_eq!(ms[0].filesystem, "sysfs");
    assert_eq!(ms[0].mountpoint, "/sys");
    assert_eq!(ms[3].filesystem, "/dev/sdc1");
    assert_eq!(ms[3].mountpoint, "/mnt/data");
    assert!(ms.iter().all(|m| !m.contains_home));
}

#[test]
fn mount_table_line_without_space_fails_whole_read() {
    let r = parse_mount_table("/dev/sda1 / ext4\nbroken\n", "/proc/mounts");
    assert_eq!(r.unwrap_err(), CustomError::FileParseFailed("/proc/mounts".to_string()));
    assert_eq!(parse_mount_table("", "/proc/mounts").unwrap().len(), 0);
    let two = parse_mount_table("a b\nc d", "/proc/mounts").unwrap();
    assert_eq!(two[1].mountpoint, "d");
}

#[test]
fn home_trash_dir_needs_data_home() {
    assert_eq!(get_home_trash_dir(Some("/home/u/.local/share")).unwrap(), "/home/u/.local/share/Trash");
    assert_eq!(
        get_home_trash_dir(None).unwrap_err(),
        CustomError::ConfigurationMissing("XDG_DATA_HOME".to_string())
    );
}

#[test]
fn most_specific_mount_holds_home() {
    let ms = mountpoints(TABLE, Some("/home/u/.local/share")).unwrap();
    let home: Vec<&str> = ms.iter().filter(|m| m.contains_home).map(|m| m.mountpoint.as_str()).collect();
    assert_eq!(home, vec!["/home"]);
    let ms = mountpoints("/dev/sda1 / ext4\n/dev/sdb1 /homework ext4\n", Some("/home/u")).unwrap();
    assert!(ms[0].contains_home);
    assert!(!ms[1].contains_home);
}

#[test]
fn home_not_on_any_mount_is_an_error() {
    let ms = parse_mount_table("/dev/sdc1 /mnt/data xfs\n", "/proc/mounts").unwrap();
    assert_eq!(
        mark_home(ms, "/home/u/.local/share/Trash").unwrap_err(),
        CustomError::HomeTrashNotDetermined(0)
    );
    assert!(matches!(mountpoints(TABLE, None), Err(CustomError::ConfigurationMissing(_))));
}

#[test]
fn dirs_are_built_per_mount() {
    let m = Mountpoint { filesystem: "/dev/sdc1".into(), mountpoint: "/mnt/data".into(), contains_home: false };
    match Dir::new(m, 1000, None).unwrap() {
        Dir::Topdir(m, t) => {
            assert_eq!(m.mountpoint, "/mnt/data");
            assert_eq!(t.shared, "/mnt/data/.Trash");
            assert_eq!(t.personal, "/mnt/data/.Trash-1000");
        }
        Dir::Home(..) => panic!("expected a topdir trash"),
    }
    let root = Mountpoint { filesystem: "/dev/sda1".into(), mountpoint: "/".into(), contains_home: false };
    let d = Dir::new(root, 0, None).unwrap();
    assert_eq!(d.paths(), vec!["/.Trash".to_string(), "/.Trash-0".to_string()]);
    let home = Mountpoint { filesystem: "/dev/sdb1".into(), mountpoint: "/home".into(), contains_home: true };
    assert!(matches!(Dir::new(home, 5, None), Err(CustomError::ConfigurationMissing(_))));
}

#[test]
fn all_builds_one_dir_per_mount() {
    let dirs = Dir::all(TABLE, 42, Some("/home/u/.local/share")).unwrap();
    assert_eq!(dirs.len(), 4);
    let d = dirs[1].as_ref().unwrap();
    assert_eq!(d.paths(), vec!["/home/u/.local/share/Trash".to_string()]);
    assert_eq!(d.mountpoint().mountpoint, "/home");
    assert!(d.mountpoint().contains_home);
    let d = dirs[2].as_ref().unwrap();
    assert_eq!(d.paths(), vec!["/mnt/data/.Trash".to_string(), "/mnt/data/.Trash-42".to_string()]);
    assert!(Dir::all("broken", 42, Some("/x")).is_err());
}

#[test]
fn mounts_come_sorted_by_path_components() {
    let table = "d1 /a-c x\nd2 /sys x\nd3 / x\nd4 /a/b x\nd5 /a x\n";
    let ms = mountpoints(table, Some("/home/u")).unwrap();
    let paths: Vec<&str> = ms.iter().map(|m| m.mountpoint.as_str()).collect();
    assert_eq!(paths, vec!["/", "/a", "/a/b", "/a-c", "/sys"]);
    assert!(ms[0].contains_home);
    assert_eq!(ms.iter().filter(|m| m.contains_home).count(), 1);
    let ms = mountpoints(TABLE, Some("/home/u/.local/share")).unwrap();
    let paths: Vec<&str> = ms.iter().map(|m| m.mountpoint.as_str()).collect();
    assert_eq!(paths, vec!["/", "/home", "/mnt/data", "/sys"]);
}

#[test]
fn mountpoints_errors_name_table_and_count() {
    assert_eq!(
        mountpoints("/dev/sda1 /\nbad\n", Some("/home/u")).unwrap_err(),
        CustomError::FileParseFailed("/proc/mounts".to_string())
    );
    assert_eq!(
        mountpoints("/dev/sdc1 /mnt/data xfs\n", Some("/home/u")).unwrap_err(),
        CustomError::HomeTrashNotDetermined(0)
    );
}

use cirrove_service::filesystem::charge::chunk;
use cirrove_service::filesystem::mounts::{
    has_connections, is_own_control, mount_at, mount_connection, mount_record_at,
    session_connection, DESCRIPTION_LIMIT,
};
use cirrove_service::filesystem::trash::is_trash_directory;

#[test]
fn recognizes_foreign_mounts_and_escaped_paths() {
    let data = "1 0 0:1 / /tmp/Cloud\\040drive rw - fuse.cirrove cirrove:x rw\n2 0 0:2 / /tmp/foreign rw - fuse.rclone rclone rw";
    assert_eq!(
        mount_at(data, "/tmp/Cloud drive").as_deref(),
        Some("fuse.cirrove")
    );
    assert_eq!(mount_at(data, "/tmp/foreign").as_deref(), Some("fuse.rclone"));
    assert_eq!(mount_at(data, "/tmp/missing"), None);
}

#[test]
fn a_record_carries_the_source_and_skips_lines_without_one() {
    let data = "no separator here\r\n3 0 0:3 / /a\\134b\\011c\\012d rw - ext4 \n3 0 0:3 / /a\\134b\\011c\\012d rw - ext4 /dev/x rw\r\n";
    assert_eq!(
        mount_record_at(data, "/a\\b\tc\nd"),
        Some(("ext4".to_string(), "/dev/x".to_string()))
    );
}

#[test]
fn older_kernel_identity_requires_the_exact_unique_owned_mount() {
    let owned = "1 0 0:91 / /tmp/Cloud\\040drive ro - fuse.cirrove cirrove:a ro\n";
    let path = "/tmp/Cloud drive";
    assert_eq!(mount_connection(owned, path, "cirrove:a"), Some(91));
    assert_eq!(mount_connection(owned, path, "cirrove:b"), None);
    assert_eq!(mount_connection(owned, "/tmp/elsewhere", "cirrove:a"), None);
    assert_eq!(mount_connection(&owned.repeat(2), path, "cirrove:a"), None);
    assert_eq!(
        mount_connection(
            &owned.replace("fuse.cirrove", "fuse.rclone"),
            path,
            "cirrove:a"
        ),
        None
    );
}

#[test]
fn a_connection_number_must_be_one() {
    let path = "/m";
    assert_eq!(mount_connection("1 0 0:+7 / /m ro - fuse.cirrove s ro", path, "s"), Some(7));
    assert_eq!(mount_connection("1 0 0:4294967296 / /m ro - fuse.cirrove s ro", path, "s"), None);
    assert_eq!(mount_connection("1 0 1:7 / /m ro - fuse.cirrove s ro", path, "s"), None);
    assert_eq!(mount_connection("1 0 0:x / /m ro - fuse.cirrove s ro", path, "s"), None);
    assert_eq!(mount_connection("broken\n1 0 0:7 / /m ro - fuse.cirrove s ro", path, "s"), None);
}

#[test]
fn the_names_a_file_manager_would_create_are_refused() {
    assert!(is_trash_directory(".Trash"));
    assert!(is_trash_directory(".Trash-0"));
    assert!(is_trash_directory(".Trash-1000"));
    assert!(is_trash_directory(".Trash-4294967294"));
}

#[test]
fn an_ordinary_folder_that_merely_reads_like_one_is_not() {
    for name in [
        "Trash",
        ".Trashcan",
        ".Trash-",
        ".Trash-user",
        ".Trash-1000-old",
        ".Trash-1000 ",
        ".trash-1000",
        "Papierkorb",
        "..Trash-1000",
    ] {
        assert!(!is_trash_directory(name), "{name} must stay creatable");
    }
}

#[test]
fn the_chunk_size_is_what_the_allocator_hands_out() {
    assert_eq!(chunk(0), 0);
    assert_eq!(chunk(1), 32);
    assert_eq!(chunk(24), 32);
    assert_eq!(chunk(25), 48);
    assert_eq!(chunk(40), 48);
    assert_eq!(chunk(41), 64);
}

#[test]
fn a_session_knows_its_connection() {
    let control = "5 0 0:9 / /sys/fs/fuse/connections rw shared:1 - fusectl fusectl rw\n";
    let owned = "1 0 0:91 / /tmp/drive ro - fuse.cirrove cirrove:a ro\n";
    let mounts = format!("{control}{owned}");
    assert!(has_connections(&mounts));
    assert!(!has_connections(owned));
    assert!(!has_connections(&control.replace("- fusectl ", "- fusectlx ")));
    assert!(!has_connections(&control.replace("connections", "other")));
    let connection = |description: &str, length: usize| {
        session_connection(&mounts, description, length, "/tmp/drive", "cirrove:a")
    };
    assert_eq!(connection("pos:\t0\nfuse_connection:\t17 \n", 30), Some(17));
    assert_eq!(connection("pos:\t0\n", 7), Some(91));
    assert_eq!(connection("fuse_connection:\tx\n", 20), None);
    assert_eq!(connection("fuse_connection:\t0\n", 20), None);
    assert_eq!(connection("pos:\t0\n", DESCRIPTION_LIMIT), Some(91));
    assert_eq!(connection("pos:\t0\n", DESCRIPTION_LIMIT + 1), None);
    assert_eq!(
        session_connection(owned, "fuse_connection: 17\n", 20, "/tmp/drive", "cirrove:a"),
        None
    );
    assert!(is_own_control(true, 7, 7, 3, 3));
    assert!(!is_own_control(false, 7, 7, 3, 3));
    assert!(!is_own_control(true, 7, 8, 3, 3));
    assert!(!is_own_control(true, 7, 7, 3, 4));
}

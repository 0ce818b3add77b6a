use laptop_backup::path::{build_full_backup_path, directory_of, file_name, is_absolute, join};

#[test]
fn mirrored_path_strips_the_root_and_reparents() {
    assert_eq!(build_full_backup_path("/a/b/c", "laptop-backup"), "laptop-backup/a/b/c");
}

#[test]
fn mirrored_path_is_root_followed_by_source_at_any_depth() {
    let root = "staging";
    for source in ["/a", "/a/b", "/a/b/c/d/e/f/g/h", "/home/user/.config/app/settings.toml"] {
        assert_eq!(build_full_backup_path(source, root), format!("{}{}", root, source));
    }
}

#[test]
fn mirrored_path_of_the_root_directory_is_the_staging_root() {
    assert_eq!(build_full_backup_path("/", "laptop-backup"), "laptop-backup/");
}

#[test]
fn mirrored_path_drops_every_leading_separator() {
    assert_eq!(build_full_backup_path("//a/b", "laptop-backup"), "laptop-backup/a/b");
    assert_eq!(build_full_backup_path("///", "laptop-backup"), "laptop-backup/");
}

#[test]
fn mirrored_path_of_a_relative_source_keeps_it_whole() {
    assert_eq!(build_full_backup_path("a/b", "laptop-backup"), "laptop-backup/a/b");
}

#[test]
fn mirrored_path_below_a_root_with_trailing_separator() {
    assert_eq!(build_full_backup_path("/a/b", "/var/staging/"), "/var/staging/a/b");
}

#[test]
fn mirrored_path_below_an_empty_root() {
    assert_eq!(build_full_backup_path("/a/b", ""), "a/b");
}

#[test]
fn mirrored_path_keeps_characters_outside_ascii() {
    assert_eq!(build_full_backup_path("/données/été.txt", "säkerhet"), "säkerhet/données/été.txt");
}

#[test]
fn distinct_sources_do_not_collide() {
    let a = build_full_backup_path("/a/bc", "r");
    let b = build_full_backup_path("/a/b/c", "r");
    let c = build_full_backup_path("/ab/c", "r");
    assert_ne!(a, b);
    assert_ne!(b, c);
    assert_ne!(a, c);
}

#[test]
fn absolute_paths_begin_with_a_separator() {
    assert!(is_absolute("/"));
    assert!(is_absolute("/tmp/a"));
    assert!(!is_absolute(""));
    assert!(!is_absolute("tmp/a"));
    assert!(!is_absolute("./tmp"));
    assert!(!is_absolute("~/tmp"));
}

#[test]
fn join_puts_one_separator_between() {
    assert_eq!(join("a", "b"), "a/b");
    assert_eq!(join("a/", "b"), "a/b");
    assert_eq!(join("", "b"), "b");
    assert_eq!(join("a", ""), "a/");
    assert_eq!(join("/", "b"), "/b");
}

#[test]
fn file_name_is_the_final_segment() {
    assert_eq!(file_name("/tmp/a/x.txt"), Some("x.txt".to_string()));
    assert_eq!(file_name("x.txt"), Some("x.txt".to_string()));
    assert_eq!(file_name("/tmp/a/.hidden"), Some(".hidden".to_string()));
    assert_eq!(file_name("/tmp/a/..."), Some("...".to_string()));
}

#[test]
fn file_name_is_absent_without_a_naming_segment() {
    assert_eq!(file_name(""), None);
    assert_eq!(file_name("/"), None);
    assert_eq!(file_name("/tmp/a/"), None);
    assert_eq!(file_name("/tmp/a/."), None);
    assert_eq!(file_name("/tmp/a/.."), None);
    assert_eq!(file_name(".."), None);
}

#[test]
fn directory_part_ends_behind_the_last_separator() {
    assert_eq!(directory_of("laptop-backup/tmp/a/x.txt"), "laptop-backup/tmp/a/");
    assert_eq!(directory_of("/x.txt"), "/");
    assert_eq!(directory_of("x.txt"), "");
    assert_eq!(directory_of("a/b/"), "a/b/");
}

#[test]
fn directory_part_and_file_name_make_the_path() {
    for path in ["/tmp/a/x.txt", "laptop-backup/x", "x", "/a/b/c.tar.age"] {
        let name = file_name(path).unwrap();
        assert_eq!(format!("{}{}", directory_of(path), name), path);
    }
}

use laptop_backup::config::load_paths_from_file;

fn strings(lines: &[&str]) -> Vec<String> {
    lines.iter().map(|line| line.to_string()).collect()
}

#[test]
fn one_path_on_each_line() {
    assert_eq!(load_paths_from_file("/tmp/a\n/home/user/docs\n"), strings(&["/tmp/a", "/home/user/docs"]));
}

#[test]
fn last_line_needs_no_line_break() {
    assert_eq!(load_paths_from_file("/tmp/a\n/tmp/b"), strings(&["/tmp/a", "/tmp/b"]));
    assert_eq!(load_paths_from_file("/tmp/a"), strings(&["/tmp/a"]));
}

#[test]
fn empty_text_lists_nothing() {
    assert_eq!(load_paths_from_file(""), strings(&[]));
}

#[test]
fn empty_lines_are_kept() {
    assert_eq!(load_paths_from_file("\n"), strings(&[""]));
    assert_eq!(load_paths_from_file("/a\n\n/b\n"), strings(&["/a", "", "/b"]));
    assert_eq!(load_paths_from_file("\n\n"), strings(&["", ""]));
}

#[test]
fn carriage_return_before_a_line_break_is_dropped() {
    assert_eq!(load_paths_from_file("/a\r\n/b\r\n"), strings(&["/a", "/b"]));
    assert_eq!(load_paths_from_file("/a\r\r\n"), strings(&["/a\r"]));
    assert_eq!(load_paths_from_file("\r\n"), strings(&[""]));
}

#[test]
fn carriage_return_elsewhere_is_kept() {
    assert_eq!(load_paths_from_file("/a\r"), strings(&["/a\r"]));
    assert_eq!(load_paths_from_file("/a\rb\n"), strings(&["/a\rb"]));
}

#[test]
fn lines_agree_with_the_standard_library() {
    for text in ["", "a", "a\n", "a\nb", "a\r\nb\r\n", "\n\na\n\n", "a\r", "\r\n\r\n", "é\nü\r\n", "a\n\r"] {
        let expected: Vec<String> = text.lines().map(|line| line.to_string()).collect();
        assert_eq!(load_paths_from_file(text), expected);
    }
}

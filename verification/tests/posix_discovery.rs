use shell_enumerator::posix::{begins_at_root, lines_of, registered_shells_of};

fn strings(items: &[&str]) -> Vec<String> {
    items.iter().map(|s| s.to_string()).collect()
}

#[test]
fn registry_lists_absolute_paths_in_file_order() {
    let content = "# comment\n/bin/sh\n/bin/bash\nnot-a-path\n/usr/bin/zsh\n";
    assert_eq!(
        registered_shells_of(Some(content)),
        strings(&["/bin/sh", "/bin/bash", "/usr/bin/zsh"])
    );
}

#[test]
fn empty_registry_lists_nothing() {
    assert_eq!(registered_shells_of(Some("")), Vec::<String>::new());
}

#[test]
fn missing_registry_lists_nothing() {
    assert_eq!(registered_shells_of(None), Vec::<String>::new());
}

#[test]
fn registry_of_comments_and_blank_lines_lists_nothing() {
    let content = "# /bin/sh\n\n   /bin/bash\n\n";
    assert_eq!(registered_shells_of(Some(content)), Vec::<String>::new());
}

#[test]
fn shell_listed_twice_is_reported_twice() {
    let content = "/bin/sh\n/bin/bash\n/bin/sh";
    assert_eq!(
        registered_shells_of(Some(content)),
        strings(&["/bin/sh", "/bin/bash", "/bin/sh"])
    );
}

#[test]
fn registered_line_is_kept_verbatim() {
    let content = "/bin/sh  # the default \n/\n/usr/local/bin/fish -l\n";
    assert_eq!(
        registered_shells_of(Some(content)),
        strings(&["/bin/sh  # the default ", "/", "/usr/local/bin/fish -l"])
    );
}

#[test]
fn registry_with_windows_line_endings() {
    let content = "/bin/sh\r\n# comment\r\n/bin/zsh\r\n";
    assert_eq!(registered_shells_of(Some(content)), strings(&["/bin/sh", "/bin/zsh"]));
}

#[test]
fn two_reads_of_the_same_registry_agree() {
    let content = "/bin/sh\nx\n/bin/dash\n";
    assert_eq!(registered_shells_of(Some(content)), registered_shells_of(Some(content)));
}

#[test]
fn lines_end_at_line_feeds() {
    assert_eq!(lines_of("a\nb\nc"), strings(&["a", "b", "c"]));
    assert_eq!(lines_of("a\nb\nc\n"), strings(&["a", "b", "c"]));
    assert_eq!(lines_of("a\n\nb"), strings(&["a", "", "b"]));
    assert_eq!(lines_of("\n"), strings(&[""]));
    assert_eq!(lines_of("\n\n"), strings(&["", ""]));
    assert_eq!(lines_of(""), Vec::<String>::new());
    assert_eq!(lines_of("no line feed"), strings(&["no line feed"]));
}

#[test]
fn carriage_return_belongs_to_the_ending_only_before_a_line_feed() {
    assert_eq!(lines_of("a\r\nb"), strings(&["a", "b"]));
    assert_eq!(lines_of("a\r\nb\r"), strings(&["a", "b\r"]));
    assert_eq!(lines_of("a\rb\n"), strings(&["a\rb"]));
    assert_eq!(lines_of("a\r\r\n"), strings(&["a\r"]));
    assert_eq!(lines_of("\r\n"), strings(&[""]));
    assert_eq!(lines_of("\r"), strings(&["\r"]));
}

#[test]
fn lines_agree_with_the_standard_library() {
    let samples = [
        "",
        "\n",
        "\r\n",
        "a",
        "a\n",
        "a\r\n\r\nb\r",
        "/bin/sh\n#c\n\n/bin/zsh",
        "\u{e9}t\u{e9}\n/b\u{fc}n/sh\r\n",
        "\n\n\n",
        "x\r\ry\n\rz",
    ];
    for sample in samples {
        let expected: Vec<String> = sample.lines().map(|l| l.to_string()).collect();
        assert_eq!(lines_of(sample), expected);
    }
}

#[test]
fn begins_at_root_looks_at_the_first_character() {
    assert!(begins_at_root("/bin/sh"));
    assert!(begins_at_root("/"));
    assert!(!begins_at_root(""));
    assert!(!begins_at_root(" /bin/sh"));
    assert!(!begins_at_root("#/bin/sh"));
    assert!(!begins_at_root("bin/sh"));
}

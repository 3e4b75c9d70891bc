use shell_enumerator::catalog::{display_name_of, known_shell, known_shells, KNOWN_SHELL_COUNT};
use shell_enumerator::greeting::greet;
use shell_enumerator::search_path::{candidate_path, search_directories_of, trim_directory};
use shell_enumerator::text::{chars_of, split_on, string_of};

fn strings(items: &[&str]) -> Vec<String> {
    items.iter().map(|s| s.to_string()).collect()
}

#[test]
fn chars_of_gives_every_character() {
    assert_eq!(chars_of("a;b"), vec!['a', ';', 'b']);
    assert_eq!(chars_of(""), Vec::<char>::new());
    assert_eq!(chars_of("\u{e9}\u{4e2d}!"), vec!['\u{e9}', '\u{4e2d}', '!']);
}

#[test]
fn string_of_copies_the_range() {
    let chars = vec!['s', 'h', 'e', 'l', 'l'];
    assert_eq!(string_of(&chars, 0, 5), "shell");
    assert_eq!(string_of(&chars, 1, 4), "hel");
    assert_eq!(string_of(&chars, 2, 2), "");
    assert_eq!(string_of(&chars, 5, 5), "");
}

#[test]
fn split_on_keeps_empty_pieces() {
    assert_eq!(split_on("a;b;;c", ';'), strings(&["a", "b", "", "c"]));
    assert_eq!(split_on("", ';'), strings(&[""]));
    assert_eq!(split_on(";", ';'), strings(&["", ""]));
    assert_eq!(split_on("abc", ';'), strings(&["abc"]));
    assert_eq!(split_on("abc;", ';'), strings(&["abc", ""]));
    assert_eq!(split_on(";abc", ';'), strings(&["", "abc"]));
}

#[test]
fn split_on_agrees_with_the_standard_library() {
    let samples = ["", ";", ";;", "a", "C:\\a;C:\\b\\;;D:\\", "\u{e9};\u{4e2d};", "a:b;c"];
    for sample in samples {
        let expected: Vec<String> = sample.split(';').map(|p| p.to_string()).collect();
        assert_eq!(split_on(sample, ';'), expected);
    }
}

#[test]
fn empty_search_path_has_no_directories() {
    assert_eq!(search_directories_of(""), Vec::<String>::new());
}

#[test]
fn search_path_is_cut_at_semicolons() {
    assert_eq!(
        search_directories_of("C:\\Windows;C:\\Windows\\System32\\;D:\\Tools"),
        strings(&["C:\\Windows", "C:\\Windows\\System32\\", "D:\\Tools"])
    );
    assert_eq!(search_directories_of("/opt/shells;/usr/bin"), strings(&["/opt/shells", "/usr/bin"]));
    assert_eq!(search_directories_of("/a:/b"), strings(&["/a:/b"]));
    assert_eq!(search_directories_of(";"), strings(&["", ""]));
}

#[test]
fn trim_directory_drops_trailing_backslashes_only() {
    assert_eq!(trim_directory("C:\\bin\\"), "C:\\bin");
    assert_eq!(trim_directory("C:\\bin\\\\\\"), "C:\\bin");
    assert_eq!(trim_directory("C:\\bin"), "C:\\bin");
    assert_eq!(trim_directory("\\\\"), "");
    assert_eq!(trim_directory(""), "");
    assert_eq!(trim_directory("/usr/bin/"), "/usr/bin/");
    assert_eq!(trim_directory("\\lead"), "\\lead");
}

#[test]
fn candidate_path_joins_with_a_slash() {
    assert_eq!(candidate_path("C:\\Windows\\", "cmd.exe"), "C:\\Windows/cmd.exe");
    assert_eq!(candidate_path("/usr/bin", "bash.exe"), "/usr/bin/bash.exe");
    assert_eq!(candidate_path("", "git.exe"), "/git.exe");
    assert_eq!(candidate_path("/usr/bin/", "zsh.exe"), "/usr/bin//zsh.exe");
}

#[test]
fn catalog_holds_nine_shells_in_order() {
    assert_eq!(KNOWN_SHELL_COUNT, 9);
    assert_eq!(
        known_shells(),
        strings(&[
            "powershell.exe",
            "pwsh.exe",
            "cmd.exe",
            "wsl.exe",
            "bash.exe",
            "zsh.exe",
            "fish.exe",
            "nu.exe",
            "git.exe",
        ])
    );
}

#[test]
fn known_shell_by_place() {
    assert_eq!(known_shell(0), Some("powershell.exe"));
    assert_eq!(known_shell(4), Some("bash.exe"));
    assert_eq!(known_shell(8), Some("git.exe"));
    assert_eq!(known_shell(9), None);
    assert_eq!(known_shell(usize::MAX), None);
    let all = known_shells();
    for i in 0..KNOWN_SHELL_COUNT {
        assert_eq!(known_shell(i), Some(all[i].as_str()));
    }
}

#[test]
fn display_name_drops_the_executable_suffix() {
    assert_eq!(display_name_of("cmd.exe"), "cmd");
    assert_eq!(display_name_of("powershell.exe"), "powershell");
    assert_eq!(display_name_of(".exe"), "");
}

#[test]
fn display_name_without_suffix_is_the_name() {
    assert_eq!(display_name_of("cmd"), "cmd");
    assert_eq!(display_name_of("exe"), "exe");
    assert_eq!(display_name_of("cmd.exe.bak"), "cmd.exe.bak");
    assert_eq!(display_name_of("cmd.EXE"), "cmd.EXE");
    assert_eq!(display_name_of(""), "");
}

#[test]
fn display_name_drops_one_suffix() {
    assert_eq!(display_name_of("tool.exe.exe"), "tool.exe");
}

#[test]
fn greet_names_the_guest() {
    assert_eq!(greet("Ada"), "Hello, Ada! You've been greeted from Rust!");
    assert_eq!(greet(""), "Hello, ! You've been greeted from Rust!");
}

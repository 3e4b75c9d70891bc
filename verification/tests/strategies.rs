use shell_enumerator::strategy::{as_text, enumerate_installed_shells, HostSnapshot, ShellDiscoveryStrategy};

fn strings(items: &[&str]) -> Vec<String> {
    items.iter().map(|s| s.to_string()).collect()
}

fn sample_host() -> HostSnapshot {
    HostSnapshot {
        search_path: Some("/opt/shells;/usr/bin".to_string()),
        existing_files: strings(&["/opt/shells/git.exe", "/usr/bin/bash.exe", "/usr/bin/cmd.exe"]),
        shell_registry: Some("# shells\n/bin/sh\n/bin/bash\n".to_string()),
    }
}

#[test]
fn strategy_follows_the_host_family() {
    assert_eq!(ShellDiscoveryStrategy::for_host(true), ShellDiscoveryStrategy::WindowsStyle);
    assert_eq!(ShellDiscoveryStrategy::for_host(false), ShellDiscoveryStrategy::PosixStyle);
}

#[test]
fn windows_style_reads_search_path_and_files() {
    let found = ShellDiscoveryStrategy::WindowsStyle.discover(&sample_host());
    assert_eq!(found, strings(&["cmd", "bash", "git"]));
}

#[test]
fn posix_style_reads_the_registry() {
    let found = ShellDiscoveryStrategy::PosixStyle.discover(&sample_host());
    assert_eq!(found, strings(&["/bin/sh", "/bin/bash"]));
}

#[test]
fn enumerate_runs_one_strategy() {
    let host = sample_host();
    assert_eq!(enumerate_installed_shells(true, &host), strings(&["cmd", "bash", "git"]));
    assert_eq!(enumerate_installed_shells(false, &host), strings(&["/bin/sh", "/bin/bash"]));
}

#[test]
fn bare_host_has_no_shells() {
    let host = HostSnapshot { search_path: None, existing_files: Vec::new(), shell_registry: None };
    assert_eq!(enumerate_installed_shells(true, &host), Vec::<String>::new());
    assert_eq!(enumerate_installed_shells(false, &host), Vec::<String>::new());
}

#[test]
fn enumerate_twice_gives_the_same() {
    let host = sample_host();
    assert_eq!(enumerate_installed_shells(true, &host), enumerate_installed_shells(true, &host));
    assert_eq!(enumerate_installed_shells(false, &host), enumerate_installed_shells(false, &host));
}

#[test]
fn as_text_borrows_what_is_there() {
    assert_eq!(as_text(&Some("/bin".to_string())), Some("/bin"));
    assert_eq!(as_text(&None), None);
}

use pod_helper::errors::OpError;
use pod_helper::host_handler::HostsFile;
use pod_helper::platform::Platform;

#[test]
fn test_list_host() {
    assert!(HostsFile::new("127.0.0.1 localhost\n1.2.3.4 myhost\n").contains_hostname("myhost"));
}

#[test]
fn parse_skips_blank_and_comment_lines() {
    let content = "\n   \n# a full comment line\n1.2.3.4 myhost\n";
    let hosts = HostsFile::new(content);
    assert_eq!(hosts.entries().len(), 1);
    assert_eq!(hosts.entries()[0].ip, "1.2.3.4");
    assert_eq!(hosts.entries()[0].hostnames, vec!["myhost".to_string()]);
    assert_eq!(hosts.entries()[0].comment, None);
}

#[test]
fn parse_skips_loopback_rows() {
    let content = "127.0.0.1       localhost\n::1             localhost ip6-localhost ip6-loopback\n\n10.0.0.1 box\n";
    let hosts = HostsFile::new(content);
    assert_eq!(hosts.entries().len(), 1);
    assert_eq!(hosts.entries()[0].ip, "10.0.0.1");
}

#[test]
fn parse_reads_trailing_comment() {
    let hosts = HostsFile::new("1.2.3.4 a b  # managed by hand\n");
    assert_eq!(hosts.entries().len(), 1);
    let entry = &hosts.entries()[0];
    assert_eq!(entry.ip, "1.2.3.4");
    assert_eq!(entry.hostnames, vec!["a".to_string(), "b".to_string()]);
    assert_eq!(entry.comment, Some("managed by hand".to_string()));
}

#[test]
fn parse_needs_at_least_one_hostname() {
    let hosts = HostsFile::new("1.2.3.4\n5.6.7.8  # only a comment\n");
    assert_eq!(hosts.entries().len(), 0);
}

#[test]
fn contains_hostname_reports_membership() {
    let hosts = HostsFile::new("1.2.3.4 a b\n5.6.7.8 c\n");
    assert!(hosts.contains_hostname("a"));
    assert!(hosts.contains_hostname("b"));
    assert!(hosts.contains_hostname("c"));
    assert!(!hosts.contains_hostname("d"));
    assert!(!hosts.contains_hostname("1.2.3.4"));
}

#[test]
fn add_entry_appends_new_row() {
    let mut hosts = HostsFile::new("1.2.3.4 a\n");
    let r = hosts.add_entry("5.6.7.8", &["b", "c"], Some("note"));
    assert!(r.is_ok());
    assert_eq!(hosts.entries().len(), 2);
    assert_eq!(hosts.entries()[1].ip, "5.6.7.8");
    assert_eq!(hosts.entries()[1].hostnames, vec!["b".to_string(), "c".to_string()]);
    assert_eq!(hosts.entries()[1].comment, Some("note".to_string()));
}

#[test]
fn add_entry_rejects_duplicate_and_keeps_table() {
    let mut hosts = HostsFile::new("1.2.3.4 a b\n");
    let before = hosts.entries().clone();
    let r = hosts.add_entry("5.6.7.8", &["fresh", "b"], None);
    match r {
        Err(OpError::DuplicateHostname { hostname }) => assert_eq!(hostname, "b"),
        other => panic!("expected a duplicate-hostname failure, got {:?}", other),
    }
    assert_eq!(hosts.entries(), &before);
    let r2 = hosts.add_entry("5.6.7.8", &["a"], Some("x"));
    assert!(matches!(r2, Err(OpError::DuplicateHostname { .. })));
    assert_eq!(hosts.entries(), &before);
}

#[test]
fn render_regenerates_loopback_header() {
    let hosts = HostsFile::new("");
    let unix = hosts.render_content(Platform::Linux);
    assert_eq!(
        unix,
        "127.0.0.1       localhost\n::1             localhost ip6-localhost ip6-loopback\n\n"
    );
    let windows = hosts.render_content(Platform::Windows);
    assert_eq!(windows, "127.0.0.1       localhost\n::1             localhost\n\n");
}

#[test]
fn render_writes_one_line_per_entry() {
    let mut hosts = HostsFile::new("");
    hosts.add_entry("1.2.3.4", &["a", "b"], Some("note")).unwrap();
    hosts.add_entry("5.6.7.8", &["c"], None).unwrap();
    let text = hosts.render_content(Platform::Linux);
    let expected = "127.0.0.1       localhost\n\
                    ::1             localhost ip6-localhost ip6-loopback\n\n\
                    1.2.3.4    a b  # note\n\
                    5.6.7.8    c\n";
    assert_eq!(text, expected);
}

#[test]
fn saved_table_parses_back_to_same_entries() {
    let source_text = "9.9.9.9 one two  # a note\n8.8.8.8 three\n7.7.7.7 four five six\n";
    let hosts = HostsFile::new(source_text);
    assert_eq!(hosts.entries().len(), 3);
    for platform in [Platform::Linux, Platform::MacOs, Platform::Windows] {
        let saved = hosts.render_content(platform);
        let reparsed = HostsFile::new(&saved);
        assert_eq!(reparsed.entries(), hosts.entries());
        let saved_again = reparsed.render_content(platform);
        assert_eq!(saved_again, saved);
    }
}

#[test]
fn elevation_helpers_build_fixed_commands() {
    assert_eq!(pod_helper::host_handler::unix_elevation_program(true), "pkexec");
    assert_eq!(pod_helper::host_handler::unix_elevation_program(false), "sudo");
    let args = pod_helper::host_handler::unix_copy_args("/tmp/t", "/etc/hosts");
    assert_eq!(args, vec!["cp".to_string(), "/tmp/t".to_string(), "/etc/hosts".to_string()]);
    let wargs = pod_helper::host_handler::windows_elevation_args("t.txt", "h.txt");
    assert_eq!(wargs.len(), 2);
    assert_eq!(wargs[0], "-Command");
    assert!(wargs[1].contains("Copy-Item -Path \"t.txt\" -Destination \"h.txt\""));
}

#[test]
fn hosts_path_is_fixed_per_platform() {
    assert_eq!(
        HostsFile::get_hosts_file_path(Platform::Windows),
        "C:\\Windows\\System32\\drivers\\etc\\hosts"
    );
    assert_eq!(HostsFile::get_hosts_file_path(Platform::Linux), "/etc/hosts");
    assert_eq!(HostsFile::get_hosts_file_path(Platform::MacOs), "/etc/hosts");
}

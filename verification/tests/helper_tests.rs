use pod_helper::environment::{join_path_list, repo_list_has_repo, updated_path_list, UserInfo};
use pod_helper::errors::OpError;
use pod_helper::platform::{
    get_bin_path, get_exe_name, get_path_separator, get_shell_cmd, is_unix, is_windows, Arch,
    Platform,
};
use pod_helper::text::{decimal_string, parse_u8, trim_str};
use pod_helper::utils::{
    download_command, extract_command, get_os_and_arch, helm_archive_name, helm_download_url,
    kubectl_download_url, repo_add_args, repo_list_args, repo_update_args,
};

#[test]
fn decimal_rendering_is_exact() {
    assert_eq!(decimal_string(0), "0");
    assert_eq!(decimal_string(7), "7");
    assert_eq!(decimal_string(32), "32");
    assert_eq!(decimal_string(50), "50");
    assert_eq!(decimal_string(100), "100");
    assert_eq!(decimal_string(255), "255");
}

#[test]
fn u8_parsing_accepts_plain_numbers_only() {
    assert_eq!(parse_u8("0"), Some(0));
    assert_eq!(parse_u8("32"), Some(32));
    assert_eq!(parse_u8("255"), Some(255));
    assert_eq!(parse_u8("+16"), Some(16));
    assert_eq!(parse_u8("256"), None);
    assert_eq!(parse_u8("999999999999"), None);
    assert_eq!(parse_u8(""), None);
    assert_eq!(parse_u8("+"), None);
    assert_eq!(parse_u8("-1"), None);
    assert_eq!(parse_u8("12a"), None);
    assert_eq!(parse_u8(" 12"), None);
}

#[test]
fn trimming_strips_surrounding_whitespace() {
    assert_eq!(trim_str("  12 \t"), "12");
    assert_eq!(trim_str("12\n"), "12");
    assert_eq!(trim_str("bio01\r\n"), "bio01");
    assert_eq!(trim_str("hello"), "hello");
    assert_eq!(trim_str("   "), "");
    assert_eq!(trim_str(""), "");
    assert_eq!(parse_u8(&trim_str(" 12 ")), Some(12));
}

#[test]
fn credential_file_round_trips() {
    let info = UserInfo::new("alice".to_string(), "secret".to_string());
    let content = info.render_config();
    assert_eq!(content, "alice\nsecret\n");
    let back = UserInfo::parse_config(&content).unwrap();
    assert_eq!(back.user, "alice");
    assert_eq!(back.password, "secret");
}

#[test]
fn credential_parse_handles_crlf_and_extra_lines() {
    let back = UserInfo::parse_config("alice\r\nsecret\r\nextra\r\n").unwrap();
    assert_eq!(back.user, "alice");
    assert_eq!(back.password, "secret");
}

#[test]
fn credential_parse_rejects_short_files() {
    assert!(matches!(UserInfo::parse_config(""), Err(OpError::Validation)));
    assert!(matches!(UserInfo::parse_config("alice\n"), Err(OpError::Validation)));
    assert!(UserInfo::parse_config("alice\nsecret").is_ok());
}

#[test]
fn update_user_builds_info_and_file_content() {
    let (info, content) = UserInfo::update_user("bob".to_string(), "pw".to_string());
    assert_eq!(info.user, "bob");
    assert_eq!(info.password, "pw");
    assert_eq!(content, "bob\npw\n");
}

#[test]
fn path_list_update_prepends_once() {
    let paths = vec!["/usr/bin".to_string(), "/bin".to_string()];
    let updated = updated_path_list(&paths, "/opt/tools");
    assert_eq!(
        updated,
        vec!["/opt/tools".to_string(), "/usr/bin".to_string(), "/bin".to_string()]
    );
    let unchanged = updated_path_list(&updated, "/opt/tools");
    assert_eq!(unchanged, updated);
}

#[test]
fn path_list_joins_with_separator() {
    let paths = vec!["/a".to_string(), "/b".to_string(), "/c".to_string()];
    assert_eq!(join_path_list(&paths, ":"), "/a:/b:/c");
    assert_eq!(join_path_list(&paths, ";"), "/a;/b;/c");
    assert_eq!(join_path_list(&Vec::new(), ":"), "");
}

#[test]
fn platform_queries_match_family() {
    assert!(is_windows(Platform::Windows));
    assert!(!is_windows(Platform::Linux));
    assert!(is_unix(Platform::Linux));
    assert!(is_unix(Platform::MacOs));
    assert!(!is_unix(Platform::Windows));
    assert_eq!(get_shell_cmd(Platform::Windows), "powershell");
    assert_eq!(get_shell_cmd(Platform::Linux), "sh");
    assert_eq!(get_path_separator(Platform::Windows), ";");
    assert_eq!(get_path_separator(Platform::MacOs), ":");
}

#[test]
fn binary_paths_follow_the_platform() {
    assert_eq!(get_exe_name(Platform::Windows, "kubectl"), "kubectl.exe");
    assert_eq!(get_exe_name(Platform::Linux, "kubectl"), "kubectl");
    assert_eq!(get_bin_path(Platform::Linux, "/work/bin", "helm"), "/work/bin/helm");
    assert_eq!(get_bin_path(Platform::Windows, "C:\\work\\bin", "helm"), "C:\\work\\bin\\helm.exe");
}

#[test]
fn os_and_arch_names_cover_supported_targets() {
    let (os, arch) = get_os_and_arch(Platform::Linux, Arch::Amd64).unwrap();
    assert_eq!(os, "linux");
    assert_eq!(arch, "amd64");
    let (os, arch) = get_os_and_arch(Platform::MacOs, Arch::Arm64).unwrap();
    assert_eq!(os, "darwin");
    assert_eq!(arch, "arm64");
    assert!(get_os_and_arch(Platform::Other, Arch::Amd64).is_none());
    assert!(get_os_and_arch(Platform::Linux, Arch::Other).is_none());
}

#[test]
fn download_urls_pin_tool_versions() {
    assert_eq!(
        kubectl_download_url(Platform::Linux, Arch::Amd64).unwrap(),
        "https://dl.k8s.io/release/v1.28.4/bin/linux/amd64/kubectl"
    );
    assert_eq!(
        kubectl_download_url(Platform::Windows, Arch::Amd64).unwrap(),
        "https://dl.k8s.io/release/v1.28.4/bin/windows/amd64/kubectl.exe"
    );
    assert_eq!(
        helm_archive_name(Platform::MacOs, Arch::Arm64).unwrap(),
        "helm-v3.12.3-darwin-arm64"
    );
    assert_eq!(
        helm_download_url(Platform::Linux, Arch::Amd64).unwrap(),
        "https://get.helm.sh/helm-v3.12.3-linux-amd64.tar.gz"
    );
}

#[test]
fn download_and_extract_commands_match_platform() {
    let (prog, args) = download_command(Platform::Linux, "http://x/y", "/tmp/y");
    assert_eq!(prog, "curl");
    assert_eq!(
        args,
        vec!["-L".to_string(), "-o".to_string(), "/tmp/y".to_string(), "http://x/y".to_string()]
    );
    let (prog, args) = download_command(Platform::Windows, "http://x/y", "C:\\y");
    assert_eq!(prog, "powershell");
    assert_eq!(args[0], "-Command");
    assert!(args[1].contains("Invoke-WebRequest -Uri 'http://x/y' -OutFile 'C:\\y'"));
    let (prog, args) = extract_command(Platform::Linux, "/tmp/a.tar.gz", "/tmp");
    assert_eq!(prog, "tar");
    assert_eq!(
        args,
        vec!["-xzf".to_string(), "/tmp/a.tar.gz".to_string(), "-C".to_string(), "/tmp".to_string()]
    );
}

#[test]
fn repository_commands_are_fixed() {
    assert_eq!(repo_list_args(), vec!["repo".to_string(), "list".to_string()]);
    assert_eq!(repo_update_args(), vec!["repo".to_string(), "update".to_string()]);
    assert_eq!(
        repo_add_args(),
        vec![
            "repo".to_string(),
            "add".to_string(),
            "med-helm".to_string(),
            "http://166.111.153.65:7001".to_string(),
        ]
    );
}

#[test]
fn repository_presence_is_a_substring_check() {
    assert!(repo_list_has_repo("NAME URL\nmed-helm http://166.111.153.65:7001\n"));
    assert!(!repo_list_has_repo("NAME URL\nstable https://example.org\n"));
    assert!(!repo_list_has_repo(""));
}

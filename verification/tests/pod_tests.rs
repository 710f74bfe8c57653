use pod_helper::errors::OpError;
use pod_helper::host_handler::HostsFile;
use pod_helper::pod_handler::{
    pod_list_args, register_install_hostname, uninstall_args, website_for, PodConfig, PodList,
};

#[test]
fn valid_names_are_accepted() {
    for name in ["bio01", "a", "zz9", "0", "abc123xyz"] {
        let r = PodConfig::new_with_params(name.to_string(), None, None);
        assert!(r.is_ok(), "{} should be a valid pod name", name);
    }
}

#[test]
fn invalid_names_are_rejected() {
    for name in ["", "Bio01", "ABC", "foo-bar", "a b", "pod_1", "café", "名前", "a.b"] {
        let r = PodConfig::new_with_params(name.to_string(), None, None);
        assert!(
            matches!(r, Err(OpError::Validation)),
            "{} should be rejected as a pod name",
            name
        );
    }
}

#[test]
fn resource_limits_default_at_render_time() {
    let c = PodConfig::new_with_params("bio01".to_string(), None, None).unwrap();
    assert_eq!(c.get_cpu(), 32);
    assert_eq!(c.get_memory(), 50);
    let c2 = PodConfig::new_with_params("bio01".to_string(), Some(8), Some(16)).unwrap();
    assert_eq!(c2.get_cpu(), 8);
    assert_eq!(c2.get_memory(), 16);
}

#[test]
fn rendering_is_deterministic() {
    let c = PodConfig::new_with_params("bio01".to_string(), Some(4), None).unwrap();
    let first = c.render_manifest("alice", "secret");
    let second = c.render_manifest("alice", "secret");
    assert_eq!(first, second);
}

#[test]
fn manifest_carries_name_defaults_and_credentials() {
    let c = PodConfig::new_with_params("bio01".to_string(), None, None).unwrap();
    let m = c.render_manifest("alice", "secret");
    assert!(m.contains("containerName: \"bio01\""));
    assert!(m.contains("cpu: \"32\""));
    assert!(m.contains("memory: \"50\""));
    assert!(m.contains("username: alice"));
    assert!(m.contains("password: secret"));
    assert!(m.contains("- \"alice\""));
    assert!(m.starts_with("replicaCount: 1\n"));
}

#[test]
fn manifest_file_and_install_args_name_the_pod() {
    let c = PodConfig::new_with_params("bio01".to_string(), None, None).unwrap();
    assert_eq!(c.manifest_file_name(), "bio01.yaml");
    let args = c.install_args("config/bio01.yaml");
    assert_eq!(
        args,
        vec![
            "install".to_string(),
            "bio01".to_string(),
            "med-helm/alpha".to_string(),
            "-f".to_string(),
            "config/bio01.yaml".to_string(),
        ]
    );
}

#[test]
fn install_success_registers_hostname() {
    let c = PodConfig::new_with_params("bio01".to_string(), None, None).unwrap();
    let m = c.render_manifest("alice", "secret");
    assert!(m.contains("containerName: \"bio01\""));
    assert!(m.contains("cpu: \"32\""));
    assert!(m.contains("memory: \"50\""));
    let mut hosts = HostsFile::new("");
    let r = register_install_hostname(&mut hosts, &c);
    assert!(r.is_ok());
    assert_eq!(hosts.entries().len(), 1);
    let entry = &hosts.entries()[0];
    assert_eq!(entry.ip, "166.111.153.65");
    assert_eq!(entry.hostnames, vec!["bio01.apps.med.thu".to_string()]);
    assert_eq!(entry.comment, Some("Added by thumed_login".to_string()));
}

#[test]
fn install_hostname_duplicate_is_reported() {
    let c = PodConfig::new_with_params("bio01".to_string(), None, None).unwrap();
    let mut hosts = HostsFile::new("1.2.3.4 bio01.apps.med.thu\n");
    let r = register_install_hostname(&mut hosts, &c);
    match r {
        Err(OpError::DuplicateHostname { hostname }) => {
            assert_eq!(hostname, "bio01.apps.med.thu")
        },
        other => panic!("expected a duplicate-hostname failure, got {:?}", other),
    }
    assert_eq!(hosts.entries().len(), 1);
}

#[test]
fn inventory_parses_tabular_output() {
    let mut pods = PodList::new();
    pods.refresh_from_output(
        "NAME            READY   STATUS    RESTARTS   AGE\na-1   1/1     Running   0          3d\nb-2   0/1     Pending   0          1h\n",
    );
    assert_eq!(pods.pod_list, vec!["a-1".to_string(), "b-2".to_string()]);
    assert_eq!(website_for("a-1"), "http://a.apps.med.thu/");
    assert_eq!(website_for("b-2"), "http://b.apps.med.thu/");
}

#[test]
fn inventory_of_empty_output_is_empty() {
    let mut pods = PodList::new();
    pods.refresh_from_output("");
    assert_eq!(pods.pod_list.len(), 0);
    pods.refresh_from_output("NAME READY\n");
    assert_eq!(pods.pod_list.len(), 0);
}

#[test]
fn website_without_separator_uses_whole_identifier() {
    assert_eq!(website_for("plain"), "http://plain.apps.med.thu/");
    assert_eq!(website_for("x-y-z"), "http://x.apps.med.thu/");
}

#[test]
fn inventory_membership_follows_refresh() {
    let mut pods = PodList::new();
    pods.refresh_from_output("NAME\nbio01-7f8c\nother-1\n");
    assert!(pods.contains("bio01-7f8c"));
    assert!(pods.contains("other-1"));
    assert!(!pods.contains("bio01"));
}

#[test]
fn login_args_require_a_known_pod() {
    let mut pods = PodList::new();
    pods.refresh_from_output("NAME\nbio01-7f8c\n");
    let args = pods.login_args("bio01-7f8c").unwrap();
    assert_eq!(
        args,
        vec![
            "exec".to_string(),
            "-it".to_string(),
            "bio01-7f8c".to_string(),
            "--".to_string(),
            "sh".to_string(),
            "/cmd.sh".to_string(),
        ]
    );
    assert!(matches!(pods.login_args("missing"), Err(OpError::PodNotFound)));
}

#[test]
fn uninstall_of_absent_pod_fails_before_any_invocation() {
    let mut pods = PodList::new();
    pods.refresh_from_output("NAME READY\nother-1 1/1\n");
    let r = pods.uninstall_release("bio01-7f8c");
    assert!(matches!(r, Err(OpError::PodNotFound)));
}

#[test]
fn uninstall_release_is_identifier_prefix() {
    let mut pods = PodList::new();
    pods.refresh_from_output("NAME\nbio01-7f8c\nplain\n");
    assert_eq!(pods.uninstall_release("bio01-7f8c").unwrap(), "bio01");
    assert_eq!(pods.uninstall_release("plain").unwrap(), "plain");
    assert_eq!(uninstall_args("bio01"), vec!["uninstall".to_string(), "bio01".to_string()]);
}

#[test]
fn listing_invocation_is_fixed() {
    assert_eq!(pod_list_args(), vec!["get".to_string(), "pods".to_string()]);
}

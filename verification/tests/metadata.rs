use openshell_vm::oci::metadata::{BuildError, ImageConfig, LaunchMetadata, Platform};
use openshell_vm::string_map::StringMap;

fn strings(list: &[&str]) -> Vec<String> {
    list.iter().map(|s| (*s).to_string()).collect()
}

fn map(list: &[(&str, &str)]) -> StringMap {
    let mut m = StringMap::new();
    for (k, v) in list {
        m.insert((*k).to_string(), (*v).to_string());
    }
    m
}

fn config(entrypoint: &[&str], cmd: &[&str], env: &[&str], workdir: &str) -> ImageConfig {
    ImageConfig {
        entrypoint: strings(entrypoint),
        cmd: strings(cmd),
        env: strings(env),
        working_dir: workdir.to_string(),
        ..Default::default()
    }
}

#[test]
fn argv_is_entrypoint_then_cmd() {
    let meta = LaunchMetadata::build(
        config(&["/bin/sh", "-c"], &["echo hi"], &[], "/app"),
        &StringMap::new(),
        &StringMap::new(),
    )
    .unwrap();
    assert_eq!(meta.argv, vec!["/bin/sh", "-c", "echo hi"]);
    assert_eq!(meta.workdir, "/app");
}

#[test]
fn argv_falls_back_to_cmd_only() {
    let meta = LaunchMetadata::build(
        config(&[], &["/bin/busybox", "sh"], &[], ""),
        &StringMap::new(),
        &StringMap::new(),
    )
    .unwrap();
    assert_eq!(meta.argv, vec!["/bin/busybox", "sh"]);
}

#[test]
fn empty_command_is_rejected() {
    let err = LaunchMetadata::build(
        config(&[], &[], &[], ""),
        &StringMap::new(),
        &StringMap::new(),
    )
    .expect_err("empty command must be rejected");
    assert!(matches!(err, BuildError::EmptyCommand));
    assert_eq!(
        err.message(),
        "image config has no runnable command (Entrypoint and Cmd are both empty)"
    );
}

#[test]
fn workdir_falls_back_to_sandbox() {
    let meta = LaunchMetadata::build(
        config(&["/bin/sh"], &[], &[], ""),
        &StringMap::new(),
        &StringMap::new(),
    )
    .unwrap();
    assert_eq!(meta.workdir, "/sandbox");

    let meta = LaunchMetadata::build(
        config(&["/bin/sh"], &[], &[], "relative/path"),
        &StringMap::new(),
        &StringMap::new(),
    )
    .unwrap();
    assert_eq!(meta.workdir, "/sandbox");
}

#[test]
fn env_precedence_is_oci_then_template_then_spec() {
    let template = map(&[("A", "template"), ("B", "template")]);
    let spec = map(&[("B", "spec"), ("C", "spec")]);

    let meta = LaunchMetadata::build(
        config(&["/bin/sh"], &[], &["A=oci", "B=oci", "D=oci"], "/app"),
        &template,
        &spec,
    )
    .unwrap();

    let env = StringMap::from_pairs(&meta.env);
    assert_eq!(env.get("A"), Some("template".to_string()));
    assert_eq!(env.get("B"), Some("spec".to_string()));
    assert_eq!(env.get("C"), Some("spec".to_string()));
    assert_eq!(env.get("D"), Some("oci".to_string()));
}

#[test]
fn malformed_oci_env_entry_is_rejected() {
    let err = LaunchMetadata::build(
        config(&["/bin/sh"], &[], &["BROKEN"], "/app"),
        &StringMap::new(),
        &StringMap::new(),
    )
    .expect_err("missing '=' should fail");
    assert!(matches!(err, BuildError::MalformedEnv(_)));
    assert_eq!(err.message(), "image env entry is not KEY=VALUE: BROKEN");
}

#[test]
fn to_guest_env_vars_round_trips_argv_with_spaces() {
    let meta = LaunchMetadata::build(
        config(
            &["/bin/sh", "-c"],
            &["echo 'hello world'"],
            &["A=1"],
            "/app",
        ),
        &StringMap::new(),
        &StringMap::new(),
    )
    .unwrap();

    let env = StringMap::from_pairs(&meta.to_guest_env_vars());
    assert_eq!(env.get("OPENSHELL_OCI_ARGC"), Some("3".to_string()));
    assert_eq!(
        env.get("OPENSHELL_OCI_ARGV_0"),
        Some("/bin/sh".to_string())
    );
    assert_eq!(env.get("OPENSHELL_OCI_ARGV_1"), Some("-c".to_string()));
    assert_eq!(
        env.get("OPENSHELL_OCI_ARGV_2"),
        Some("echo 'hello world'".to_string())
    );
    assert_eq!(env.get("OPENSHELL_OCI_ENV_COUNT"), Some("1".to_string()));
    assert_eq!(env.get("OPENSHELL_OCI_ENV_0"), Some("A=1".to_string()));
    assert_eq!(env.get("OPENSHELL_OCI_WORKDIR"), Some("/app".to_string()));
}

#[test]
fn host_platform_is_recognized_on_supported_arches() {
    for arch in ["x86_64", "aarch64"] {
        let platform = Platform::host(arch);
        assert!(matches!(
            platform,
            Some(Platform::LinuxAmd64) | Some(Platform::LinuxArm64)
        ));
    }
}

#[test]
fn host_platform_by_architecture_name() {
    assert_eq!(Platform::host("x86_64"), Some(Platform::LinuxAmd64));
    assert_eq!(Platform::host("aarch64"), Some(Platform::LinuxArm64));
    assert_eq!(Platform::host("arm64"), Some(Platform::LinuxArm64));
    assert_eq!(Platform::host("riscv64"), None);
}

#[test]
fn platform_texts() {
    assert_eq!(Platform::LinuxAmd64.display(), "linux/amd64");
    assert_eq!(Platform::LinuxArm64.display(), "linux/arm64");
    assert_eq!(Platform::LinuxArm64.os(), "linux");
    assert_eq!(Platform::LinuxAmd64.cache_tag(), "amd64");
}

#[test]
fn environment_is_in_key_order_and_the_last_image_entry_wins() {
    let meta = LaunchMetadata::build(
        config(&["x"], &[], &["Z=1", "A=first", "A=last", "=v"], "/"),
        &StringMap::new(),
        &StringMap::new(),
    )
    .unwrap();
    let expected: Vec<(String, String)> = vec![
        (String::new(), "v".to_string()),
        ("A".to_string(), "last".to_string()),
        ("Z".to_string(), "1".to_string()),
    ];
    assert_eq!(meta.env, expected);
}

#[test]
fn empty_template_key_is_rejected_but_not_an_empty_spec_key() {
    let err = LaunchMetadata::build(
        config(&["x"], &[], &[], "/"),
        &map(&[("", "v")]),
        &StringMap::new(),
    )
    .expect_err("empty template key");
    assert_eq!(err, BuildError::EmptyTemplateEnvKey);
    assert_eq!(err.message(), "template env entry has empty key");

    let meta = LaunchMetadata::build(
        config(&["x"], &[], &[], "/"),
        &StringMap::new(),
        &map(&[("", "v")]),
    )
    .unwrap();
    assert_eq!(meta.env, vec![(String::new(), "v".to_string())]);
}

#[test]
fn a_malformed_image_entry_is_reported_before_an_empty_template_key() {
    let err = LaunchMetadata::build(
        config(&["x"], &[], &["A=1", "bad", "worse"], "/"),
        &map(&[("", "v")]),
        &StringMap::new(),
    )
    .expect_err("malformed entry");
    assert_eq!(err, BuildError::MalformedEnv("bad".to_string()));
}

#[test]
fn guest_variables_are_distinct_and_ordered() {
    let meta = LaunchMetadata {
        argv: strings(&["a", "b"]),
        env: vec![("K".to_string(), "x=y".to_string())],
        workdir: "/w".to_string(),
        labels: StringMap::new(),
        stop_signal: String::new(),
    };
    let vars = meta.to_guest_env_vars();
    let names: Vec<&str> = vars.iter().map(|(n, _)| n.as_str()).collect();
    assert_eq!(
        names,
        vec![
            "OPENSHELL_OCI_ARGC",
            "OPENSHELL_OCI_ARGV_0",
            "OPENSHELL_OCI_ARGV_1",
            "OPENSHELL_OCI_ENV_COUNT",
            "OPENSHELL_OCI_ENV_0",
            "OPENSHELL_OCI_WORKDIR",
        ]
    );
    assert_eq!(vars[4].1, "K=x=y");
}

#[test]
fn labels_and_stop_signal_are_carried() {
    let mut cfg = config(&["x"], &[], &[], "/");
    cfg.labels.insert("l".to_string(), "v".to_string());
    cfg.stop_signal = "SIGTERM".to_string();
    let meta = LaunchMetadata::build(cfg, &StringMap::new(), &StringMap::new()).unwrap();
    assert_eq!(meta.labels.get("l"), Some("v".to_string()));
    assert_eq!(meta.stop_signal, "SIGTERM");
}

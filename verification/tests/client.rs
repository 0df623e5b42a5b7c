use openshell_vm::oci::client::{
    check_reference, parse_image_config, pick_platform, pulled_image, EntryPlatform, ImageLayer,
    IndexEntry, InnerConfig, PullError, RawConfig, RegistryImage,
};
use openshell_vm::oci::metadata::Platform;
use openshell_vm::string_map::StringMap;
use serde_json::Value;

fn entry(os: &str, arch: &str, digest: &str) -> IndexEntry {
    IndexEntry {
        digest: digest.to_string(),
        platform: Some(EntryPlatform {
            os: os.to_string(),
            architecture: arch.to_string(),
        }),
    }
}

fn texts(value: Option<&Value>) -> Option<Vec<String>> {
    value.and_then(Value::as_array).map(|list| {
        list.iter()
            .filter_map(|v| v.as_str().map(str::to_string))
            .collect()
    })
}

fn text(value: Option<&Value>) -> Option<String> {
    value.and_then(Value::as_str).map(str::to_string)
}

fn decode(bytes: &[u8]) -> Result<RawConfig, String> {
    let value: Value = serde_json::from_slice(bytes).map_err(|e| e.to_string())?;
    let config = value.get("config").map(|c| InnerConfig {
        entrypoint: texts(c.get("Entrypoint")),
        cmd: texts(c.get("Cmd")),
        env: texts(c.get("Env")),
        working_dir: text(c.get("WorkingDir")),
        labels: c.get("Labels").and_then(Value::as_object).map(|map| {
            let mut labels = StringMap::new();
            for (k, v) in map {
                labels.insert(k.clone(), v.as_str().unwrap_or("").to_string());
            }
            labels
        }),
        stop_signal: text(c.get("StopSignal")),
    });
    Ok(RawConfig { config })
}

#[test]
fn pick_platform_selects_matching_entry() {
    let entries = vec![
        entry("linux", "amd64", "sha256:amd"),
        entry("linux", "arm64", "sha256:arm"),
    ];
    assert_eq!(
        pick_platform(&entries, Platform::LinuxAmd64),
        Some("sha256:amd".to_string())
    );
    assert_eq!(
        pick_platform(&entries, Platform::LinuxArm64),
        Some("sha256:arm".to_string())
    );
}

#[test]
fn pick_platform_returns_none_when_unsupported() {
    let entries = vec![entry("windows", "amd64", "sha256:win")];
    assert!(pick_platform(&entries, Platform::LinuxAmd64).is_none());
}

#[test]
fn pick_platform_takes_the_first_match_and_skips_entries_without_platform() {
    let entries = vec![
        IndexEntry {
            digest: "sha256:bare".to_string(),
            platform: None,
        },
        entry("linux", "amd64", "sha256:one"),
        entry("linux", "amd64", "sha256:two"),
    ];
    assert_eq!(
        pick_platform(&entries, Platform::LinuxAmd64),
        Some("sha256:one".to_string())
    );
}

#[test]
fn parse_image_config_handles_entrypoint_and_cmd_fields() {
    let json = br#"{
            "architecture": "amd64",
            "os": "linux",
            "config": {
                "Entrypoint": ["/bin/sh", "-c"],
                "Cmd": ["echo hello"],
                "Env": ["PATH=/usr/bin"],
                "WorkingDir": "/app",
                "Labels": {"k": "v"},
                "StopSignal": "SIGTERM"
            }
        }"#;
    let cfg = parse_image_config(decode(json)).unwrap();
    assert_eq!(cfg.entrypoint, vec!["/bin/sh", "-c"]);
    assert_eq!(cfg.cmd, vec!["echo hello"]);
    assert_eq!(cfg.env, vec!["PATH=/usr/bin"]);
    assert_eq!(cfg.working_dir, "/app");
    assert_eq!(cfg.labels.get("k"), Some("v".to_string()));
    assert_eq!(cfg.stop_signal, "SIGTERM");
}

#[test]
fn parse_image_config_tolerates_missing_config_block() {
    let json = br#"{"architecture":"amd64","os":"linux"}"#;
    let cfg = parse_image_config(decode(json)).unwrap();
    assert!(cfg.entrypoint.is_empty());
    assert!(cfg.cmd.is_empty());
    assert_eq!(cfg.working_dir, "");
}

#[test]
fn parse_image_config_rejects_malformed_json() {
    let err = parse_image_config(decode(b"not json")).expect_err("should fail");
    assert!(matches!(err, PullError::MalformedConfig(_)));
}

#[test]
fn a_config_block_may_leave_everything_out() {
    let cfg = parse_image_config(decode(br#"{"config":{}}"#)).unwrap();
    assert!(cfg.entrypoint.is_empty());
    assert!(cfg.env.is_empty());
    assert!(cfg.labels.is_empty());
    assert_eq!(cfg.stop_signal, "");
}

#[test]
fn a_pull_needs_a_manifest_digest_and_a_config() {
    let layers = || {
        vec![ImageLayer {
            media_type: "application/vnd.oci.image.layer.v1.tar".to_string(),
            data: vec![1, 2],
        }]
    };
    let err = pulled_image(Err("down".to_string())).expect_err("refused");
    assert_eq!(err, PullError::Registry("down".to_string()));
    assert_eq!(err.message(), "registry error: down");

    let err = pulled_image(Ok(RegistryImage {
        digest: None,
        layers: layers(),
        config: Err("bad".to_string()),
    }))
    .expect_err("no digest");
    assert_eq!(
        err.message(),
        "registry error: registry did not return a manifest digest"
    );

    let err = pulled_image(Ok(RegistryImage {
        digest: Some("sha256:d".to_string()),
        layers: layers(),
        config: Err("bad".to_string()),
    }))
    .expect_err("bad config");
    assert_eq!(err.message(), "malformed OCI image config: bad");

    let image = pulled_image(Ok(RegistryImage {
        digest: Some("sha256:d".to_string()),
        layers: layers(),
        config: Ok(RawConfig { config: None }),
    }))
    .unwrap();
    assert_eq!(image.manifest_digest, "sha256:d");
    assert_eq!(image.layers.len(), 1);
    assert_eq!(image.layers[0].data, vec![1, 2]);
}

#[test]
fn references_are_parsed_by_the_registry_client() {
    assert!(check_reference("busybox").is_ok());
    let err = check_reference("not a reference").expect_err("spaces");
    assert_eq!(
        err.message(),
        "invalid image reference: invalid reference format"
    );
    let err = check_reference("").expect_err("empty");
    assert_eq!(
        err,
        PullError::InvalidReference(
            "repository name must have at least one component".to_string()
        )
    );
}

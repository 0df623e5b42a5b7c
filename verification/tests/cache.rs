use openshell_vm::oci::cache::{
    split_digest, strip_algo, CacheError, CacheLayout, CacheStep, CachedMetadata,
    METADATA_SCHEMA_V1,
};
use openshell_vm::oci::metadata::{LaunchMetadata, Platform};
use openshell_vm::path::UnixPath;
use openshell_vm::string_map::StringMap;

fn layout() -> CacheLayout {
    CacheLayout::new(UnixPath::new("/cache"))
}

fn sample_metadata() -> LaunchMetadata {
    LaunchMetadata {
        argv: vec!["/bin/sh".to_string(), "-c".to_string(), "true".to_string()],
        env: vec![("A".to_string(), "1".to_string())],
        workdir: "/sandbox".to_string(),
        labels: StringMap::new(),
        stop_signal: String::new(),
    }
}

#[test]
fn digest_with_algo_splits_into_blob_path() {
    let layout = CacheLayout::new(UnixPath::new("/cache"));
    assert_eq!(
        layout.blob_path("sha256:abc123"),
        UnixPath::new("/cache/blobs/sha256/abc123")
    );
}

#[test]
fn digest_without_algo_defaults_to_sha256() {
    let layout = CacheLayout::new(UnixPath::new("/cache"));
    assert_eq!(
        layout.blob_path("abc123"),
        UnixPath::new("/cache/blobs/sha256/abc123")
    );
}

#[test]
fn fs_and_metadata_paths_include_platform_tag() {
    let layout = CacheLayout::new(UnixPath::new("/cache"));
    assert_eq!(
        layout.fs_image_path("sha256:deadbeef", Platform::LinuxAmd64),
        UnixPath::new("/cache/fs/deadbeef.amd64.squashfs")
    );
    assert_eq!(
        layout.metadata_path("sha256:deadbeef", Platform::LinuxArm64),
        UnixPath::new("/cache/meta/deadbeef.arm64.json")
    );
}

#[test]
fn lookup_returns_none_when_either_file_is_missing() {
    let layout = layout();
    let record = || {
        Some(CachedMetadata {
            schema: METADATA_SCHEMA_V1,
            launch: sample_metadata(),
        })
    };
    assert!(layout
        .lookup("sha256:abc", Platform::LinuxAmd64, false, false, None)
        .is_none());
    assert!(layout
        .lookup("sha256:abc", Platform::LinuxAmd64, false, true, record())
        .is_none());
    assert!(layout
        .lookup("sha256:abc", Platform::LinuxAmd64, true, false, record())
        .is_none());
}

#[test]
fn lookup_returns_none_when_the_metadata_cannot_be_read() {
    assert!(layout()
        .lookup("sha256:abc", Platform::LinuxAmd64, true, true, None)
        .is_none());
}

#[test]
fn lookup_returns_paired_fs_image_and_metadata() {
    let layout = layout();
    let write = layout
        .write_metadata("sha256:abc", Platform::LinuxAmd64, &sample_metadata(), 7)
        .unwrap();
    let hit = layout
        .lookup(
            "sha256:abc",
            Platform::LinuxAmd64,
            true,
            true,
            Some(write.record),
        )
        .expect("expected cache hit");
    assert_eq!(
        hit.fs_image,
        layout.fs_image_path("sha256:abc", Platform::LinuxAmd64)
    );
    assert_eq!(hit.metadata, sample_metadata());
}

#[test]
fn write_metadata_is_atomic_under_repeat_writes() {
    let layout = layout();
    let mut metadata = sample_metadata();
    let first = layout
        .write_metadata("sha256:abc", Platform::LinuxAmd64, &metadata, 42)
        .unwrap();
    metadata.argv.push("extra".to_string());
    let second = layout
        .write_metadata("sha256:abc", Platform::LinuxAmd64, &metadata, 42)
        .unwrap();
    assert_eq!(first.steps, second.steps);
    assert_eq!(second.record.launch.argv.last(), Some(&"extra".to_string()));
    assert_eq!(second.record.schema, 1);
    let hit = layout.lookup(
        "sha256:abc",
        Platform::LinuxAmd64,
        false,
        true,
        Some(second.record),
    );
    assert!(hit.is_none());

    let staging = UnixPath::new("/cache/tmp/abc.amd64.json.42.tmp");
    let target = UnixPath::new("/cache/meta/abc.amd64.json");
    let dir = |p: &str| CacheStep::CreateDirAll {
        path: UnixPath::new(p),
    };
    assert_eq!(
        second.steps,
        vec![
            dir("/cache/blobs/sha256"),
            dir("/cache/fs"),
            dir("/cache/meta"),
            dir("/cache/tmp"),
            dir("/cache/tmp"),
            dir("/cache/meta"),
            CacheStep::Write {
                path: staging.clone()
            },
            CacheStep::Rename {
                from: staging,
                to: target
            },
        ]
    );
}

#[test]
fn install_fs_image_moves_built_image_into_slot() {
    let layout = layout();
    let built = layout.tmp_dir().join("built.squashfs");
    let (steps, dest) = layout.install_fs_image("sha256:xyz", Platform::LinuxAmd64, &built);
    assert_eq!(
        dest,
        layout.fs_image_path("sha256:xyz", Platform::LinuxAmd64)
    );
    assert_eq!(steps.len(), 5);
    assert_eq!(
        steps[4],
        CacheStep::Rename {
            from: built.clone(),
            to: dest.clone()
        }
    );
    for step in &steps[..4] {
        assert!(matches!(step, CacheStep::CreateDirAll { .. }));
    }
}

#[test]
fn digests_split_at_their_first_colon() {
    assert_eq!(
        split_digest("sha512:a:b"),
        ("sha512".to_string(), "a:b".to_string())
    );
    assert_eq!(strip_algo("sha256:ff"), "ff");
    assert_eq!(strip_algo("ff"), "ff");
}

#[test]
fn a_target_without_a_file_name_cannot_be_written() {
    let err = openshell_vm::oci::cache::atomic_write(
        &UnixPath::new("/tmp"),
        &UnixPath::new("/"),
        1,
    )
    .expect_err("no file name");
    assert_eq!(err, CacheError::NoFileName);
    assert_eq!(err.message(), "cache target has no file name");
}

#[test]
fn slots_differ_by_image_and_by_platform() {
    let layout = layout();
    assert_eq!(layout.root(), &UnixPath::new("/cache"));
    let a = layout.fs_image_path("sha256:a", Platform::LinuxAmd64);
    assert_ne!(a, layout.fs_image_path("sha256:b", Platform::LinuxAmd64));
    assert_ne!(a, layout.fs_image_path("sha256:a", Platform::LinuxArm64));
    assert_eq!(a, layout.fs_image_path("a", Platform::LinuxAmd64));
    assert_eq!(layout.clone().ensure_dirs().len(), 4);
}

#[test]
fn platforms_have_their_own_slots_for_every_digest() {
    let layout = layout();
    for digest in ["", "sha256:a", "sha256:/abs", "/", "sha256:"] {
        assert_ne!(
            layout.fs_image_path(digest, Platform::LinuxAmd64),
            layout.fs_image_path(digest, Platform::LinuxArm64)
        );
        assert_ne!(
            layout.metadata_path(digest, Platform::LinuxAmd64),
            layout.metadata_path(digest, Platform::LinuxArm64)
        );
    }
    assert_eq!(
        layout.metadata_path("sha256:/abs", Platform::LinuxArm64),
        UnixPath::new("/abs.arm64.json")
    );
}

use openshell_vm::fault::FaultKind;
use openshell_vm::oci::fs_image::{
    build, build_outcome, BuildFacts, BuildOptions, BuildRun, Compression,
};
use openshell_vm::path::UnixPath;

#[test]
fn build_fails_when_mksquashfs_is_missing() {
    let options = BuildOptions::with_binary(UnixPath::new("/t/missing-mksquashfs"));
    let err = build(
        &UnixPath::new("/t/src"),
        &UnixPath::new("/t/out.squashfs"),
        &options,
        BuildFacts {
            binary_is_file: false,
            source_is_dir: true,
            dest_exists: false,
        },
    )
    .expect_err("missing binary should fail");
    assert_eq!(err.kind, FaultKind::NotFound);
    assert_eq!(
        err.message,
        "mksquashfs binary not found at /t/missing-mksquashfs"
    );
}

#[test]
fn build_fails_when_source_tree_is_missing() {
    let options = BuildOptions::with_binary(UnixPath::new("/t/mksquashfs"));
    let err = build(
        &UnixPath::new("/t/missing-src"),
        &UnixPath::new("/t/out.squashfs"),
        &options,
        BuildFacts {
            binary_is_file: true,
            source_is_dir: false,
            dest_exists: false,
        },
    )
    .expect_err("missing source should fail");
    assert_eq!(err.kind, FaultKind::NotFound);
    assert_eq!(err.message, "source tree not found at /t/missing-src");
}

#[test]
fn compression_tag_matches_mksquashfs_flag_values() {
    assert_eq!(Compression::Zstd.as_str(), "zstd");
    assert_eq!(Compression::Gzip.as_str(), "gzip");
    assert_eq!(Compression::Xz.as_str(), "xz");
}

#[test]
fn build_passes_paths_compression_and_extra_flags() {
    let mut options = BuildOptions::with_binary(UnixPath::new("/t/mksquashfs"));
    options.compression = Compression::Gzip;
    options.extra_args.push("-no-xattrs".to_string());
    let plan = build(
        &UnixPath::new("/t/src"),
        &UnixPath::new("/t/o/out.squashfs"),
        &options,
        BuildFacts {
            binary_is_file: true,
            source_is_dir: true,
            dest_exists: true,
        },
    )
    .unwrap();
    let args: Vec<String> = plan
        .args
        .iter()
        .map(|a| String::from_utf8(a.clone()).unwrap())
        .collect();
    assert_eq!(
        args,
        vec![
            "/t/src",
            "/t/o/out.squashfs",
            "-noappend",
            "-quiet",
            "-comp",
            "gzip",
            "-no-xattrs"
        ]
    );
    assert_eq!(plan.program, UnixPath::new("/t/mksquashfs"));
    assert_eq!(plan.remove, Some(UnixPath::new("/t/o/out.squashfs")));
    assert_eq!(plan.create, Some(UnixPath::new("/t/o")));
}

#[test]
fn a_failed_build_reports_its_trimmed_errors() {
    let options = BuildOptions::with_binary(UnixPath::new("/t/mk"));
    assert!(build_outcome(
        &options,
        &BuildRun::Ended {
            success: true,
            status: "exit status: 0".to_string(),
            stderr: b"noise".to_vec(),
        }
    )
    .is_ok());
    let err = build_outcome(
        &options,
        &BuildRun::Ended {
            success: false,
            status: "exit status: 1".to_string(),
            stderr: b" \n no space left \n".to_vec(),
        },
    )
    .expect_err("failed");
    assert_eq!(
        err.message,
        "mksquashfs failed (status exit status: 1): no space left"
    );
    assert_eq!(err.kind, FaultKind::Other);
    let err = build_outcome(
        &options,
        &BuildRun::SpawnFailed {
            error: "denied".to_string(),
        },
    )
    .expect_err("not started");
    assert_eq!(err.message, "spawn mksquashfs /t/mk: denied");
}

use openshell_vm::oci::cache::{CacheLayout, CachedMetadata};
use openshell_vm::oci::client::{ImageLayer, PullError, PulledImage};
use openshell_vm::oci::flatten::LayerError;
use openshell_vm::oci::metadata::{BuildError, ImageConfig, LaunchMetadata, Platform};
use openshell_vm::oci::pipeline::{
    prepare, strip_prefix, validate_reference, EnvOverrides, PipelineError, PrepareEvent,
    PrepareJob, PrepareState, PrepareStep, PrepareWork,
};
use openshell_vm::path::UnixPath;
use openshell_vm::string_map::StringMap;

fn job() -> PrepareJob {
    PrepareJob {
        cache: CacheLayout::new(UnixPath::new("/cache")),
        platform: Platform::LinuxAmd64,
        image_ref: "docker.io/library/alpine:3.20".to_string(),
        overrides: EnvOverrides::default(),
    }
}

fn pulled(layers: usize) -> PulledImage {
    PulledImage {
        manifest_digest: "sha256:d1".to_string(),
        layers: (0..layers)
            .map(|_| ImageLayer {
                media_type: "application/bogus".to_string(),
                data: Vec::new(),
            })
            .collect(),
        image_config: ImageConfig {
            entrypoint: vec!["/bin/sh".to_string()],
            ..Default::default()
        },
    }
}

fn next(step: PrepareStep) -> PrepareState {
    match step {
        PrepareStep::Next { state } => state,
        other => panic!("expected a next state, got {other:?}"),
    }
}

fn failure(step: PrepareStep) -> PipelineError {
    match step {
        PrepareStep::Failed { error } => error,
        other => panic!("expected a failure, got {other:?}"),
    }
}

fn failed(text: &str) -> PrepareEvent {
    PrepareEvent::Failed {
        error: text.to_string(),
    }
}

fn resolved(digest: &str) -> PrepareEvent {
    PrepareEvent::Resolved {
        digest: Ok(digest.to_string()),
    }
}

fn dirs() -> PrepareState {
    PrepareState::Dirs {
        digest: "sha256:d1".to_string(),
    }
}

fn pulling() -> PrepareState {
    PrepareState::Pulling {
        digest: "sha256:d1".to_string(),
    }
}

fn missed() -> PrepareEvent {
    PrepareEvent::Looked {
        fs_is_file: true,
        metadata_is_file: false,
        stored: None,
    }
}

#[test]
fn validate_reference_accepts_canonical_image_ref() {
    validate_reference("docker.io/library/alpine:3.20").expect("valid");
    validate_reference(
        "ghcr.io/org/image@sha256:0000000000000000000000000000000000000000000000000000000000000000",
    )
    .expect("digest ref");
}

#[test]
fn validate_reference_rejects_empty_string() {
    validate_reference("").expect_err("empty ref should fail");
}

#[test]
fn a_rejected_reference_keeps_the_parser_text() {
    let err = validate_reference("no spaces").expect_err("spaces");
    assert_eq!(
        err.message(),
        "invalid image reference: invalid reference format"
    );
}

#[test]
fn a_miss_goes_through_all_work_in_order() {
    let job = job();
    let state = next(job.start());
    assert!(
        matches!(job.work(&state), PrepareWork::Resolve { image_ref } if image_ref == "docker.io/library/alpine:3.20")
    );
    let state = next(prepare(&job, state, resolved("sha256:d1")));
    assert!(matches!(job.work(&state), PrepareWork::Lookup { digest } if digest == "sha256:d1"));
    let state = next(prepare(&job, state, missed()));
    assert!(matches!(job.work(&state), PrepareWork::CreateDirs { dirs } if dirs.len() == 4));
    let state = next(prepare(&job, state, PrepareEvent::Done));
    assert!(
        matches!(job.work(&state), PrepareWork::Pull { image_ref } if image_ref == "docker.io/library/alpine:3.20")
    );
    let state = next(prepare(
        &job,
        state,
        PrepareEvent::Pulled {
            result: Ok(pulled(2)),
        },
    ));
    let staging = UnixPath::new("/cache/tmp/stage-d1");
    assert!(matches!(job.work(&state), PrepareWork::ResetDir { path } if path == staging));
    let state = next(prepare(&job, state, PrepareEvent::Done));
    match job.work(&state) {
        PrepareWork::ApplyLayer { layer, plan } => {
            assert_eq!(layer, 0);
            assert_eq!(
                plan.fault,
                Some(LayerError::UnknownMediaType(
                    "application/bogus".to_string()
                ))
            );
        }
        other => panic!("unexpected work {other:?}"),
    }
    let state = next(prepare(&job, state, PrepareEvent::Done));
    assert!(matches!(
        job.work(&state),
        PrepareWork::ApplyLayer { layer: 1, .. }
    ));
    let state = next(prepare(&job, state, PrepareEvent::Done));
    assert!(matches!(job.work(&state), PrepareWork::Inject { root } if root == staging));
    let state = next(prepare(&job, state, PrepareEvent::Done));
    let built = UnixPath::new("/cache/tmp/build-d1.squashfs");
    match job.work(&state) {
        PrepareWork::BuildImage { source, dest } => {
            assert_eq!(source, staging);
            assert_eq!(dest, built);
        }
        other => panic!("unexpected work {other:?}"),
    }
    let state = next(prepare(&job, state, PrepareEvent::Done));
    assert!(matches!(job.work(&state), PrepareWork::RemoveDir { path } if path == staging));
    let state = next(prepare(&job, state, failed("busy")));
    match job.work(&state) {
        PrepareWork::Install { digest, built: b } => {
            assert_eq!(digest, "sha256:d1");
            assert_eq!(b, built);
        }
        other => panic!("unexpected work {other:?}"),
    }
    let state = next(prepare(&job, state, PrepareEvent::Done));
    match job.work(&state) {
        PrepareWork::WriteMetadata { digest, metadata } => {
            assert_eq!(digest, "sha256:d1");
            assert_eq!(metadata.argv, vec!["/bin/sh"]);
        }
        other => panic!("unexpected work {other:?}"),
    }
    match prepare(&job, state, PrepareEvent::Done) {
        PrepareStep::Finished { image } => {
            assert_eq!(image.fs_image, UnixPath::new("/cache/fs/d1.amd64.squashfs"));
            assert_eq!(image.metadata.argv, vec!["/bin/sh"]);
            assert_eq!(image.metadata.workdir, "/sandbox");
        }
        other => panic!("unexpected step {other:?}"),
    }
}

fn hit() -> PrepareEvent {
    PrepareEvent::Looked {
        fs_is_file: true,
        metadata_is_file: true,
        stored: Some(CachedMetadata {
            schema: 1,
            launch: LaunchMetadata {
                argv: vec!["stored".to_string()],
                env: Vec::new(),
                workdir: "/".to_string(),
                labels: StringMap::new(),
                stop_signal: String::new(),
            },
        }),
    }
}

fn assert_stored(step: PrepareStep, slot: &str) {
    match step {
        PrepareStep::Finished { image } => {
            assert_eq!(image.metadata.argv, vec!["stored"]);
            assert_eq!(image.fs_image, UnixPath::new(slot));
        }
        other => panic!("unexpected step {other:?}"),
    }
}

#[test]
fn a_hit_on_the_digest_of_the_reference_takes_one_lookup() {
    let mut job = job();
    let hex = "0".repeat(64);
    job.image_ref = format!("ghcr.io/org/image:v1@sha256:{hex}");
    let state = next(job.start());
    assert!(
        matches!(job.work(&state), PrepareWork::Lookup { digest } if digest == format!("sha256:{hex}"))
    );
    assert_stored(
        prepare(&job, state, hit()),
        &format!("/cache/fs/{hex}.amd64.squashfs"),
    );

    let state = next(prepare(&job, next(job.start()), missed()));
    assert!(matches!(job.work(&state), PrepareWork::Resolve { .. }));
}

#[test]
fn a_hit_on_a_tag_asks_for_its_digest_and_a_lookup_alone() {
    let job = job();
    let state = next(job.start());
    assert!(matches!(job.work(&state), PrepareWork::Resolve { .. }));
    let state = next(prepare(&job, state, resolved("sha256:d1")));
    assert!(matches!(job.work(&state), PrepareWork::Lookup { .. }));
    assert_stored(prepare(&job, state, hit()), "/cache/fs/d1.amd64.squashfs");
}

#[test]
fn a_tag_that_moved_is_looked_up_again() {
    let job = job();
    let state = next(prepare(
        &job,
        PrepareState::Pulling {
            digest: "sha256:old".to_string(),
        },
        PrepareEvent::Pulled {
            result: Ok(pulled(1)),
        },
    ));
    assert!(matches!(job.work(&state), PrepareWork::Lookup { digest } if digest == "sha256:d1"));
    assert_stored(prepare(&job, state, hit()), "/cache/fs/d1.amd64.squashfs");
    let state = next(prepare(
        &job,
        PrepareState::Looking { pulled: pulled(1) },
        missed(),
    ));
    assert!(matches!(state, PrepareState::Staging { .. }));
}

#[test]
fn a_reference_that_is_none_ends_the_preparation_at_once() {
    let mut job = job();
    job.image_ref = String::new();
    assert_eq!(
        failure(job.start()),
        PipelineError::Pull(PullError::InvalidReference(
            "repository name must have at least one component".to_string()
        ))
    );
}

#[test]
fn failures_carry_their_stage() {
    let job = job();
    let meta = || LaunchMetadata {
        argv: vec!["x".to_string()],
        env: Vec::new(),
        workdir: "/".to_string(),
        labels: StringMap::new(),
        stop_signal: String::new(),
    };
    let e = failure(prepare(&job, dirs(), failed("e")));
    assert_eq!(e.message(), "cache I/O: e");
    let e = failure(prepare(
        &job,
        pulling(),
        PrepareEvent::Pulled {
            result: Err(PullError::Registry("r".to_string())),
        },
    ));
    assert_eq!(e.message(), "registry error: r");
    let e = failure(prepare(
        &job,
        PrepareState::Resolving,
        PrepareEvent::Resolved {
            digest: Err(PullError::Registry("m".to_string())),
        },
    ));
    assert_eq!(e.message(), "registry error: m");
    let e = failure(prepare(
        &job,
        PrepareState::Staging { pulled: pulled(1) },
        failed("e"),
    ));
    assert_eq!(e, PipelineError::Cache("e".to_string()));
    let e = failure(prepare(
        &job,
        PrepareState::Layering {
            pulled: pulled(1),
            layer: 0,
        },
        failed("e"),
    ));
    assert_eq!(e.message(), "flatten layer: e");
    let e = failure(prepare(
        &job,
        PrepareState::Injecting { pulled: pulled(0) },
        failed("e"),
    ));
    assert_eq!(e.message(), "inject compat files: e");
    let mut empty = pulled(0);
    empty.image_config.entrypoint.clear();
    let e = failure(prepare(
        &job,
        PrepareState::Injecting { pulled: empty },
        PrepareEvent::Done,
    ));
    assert_eq!(e, PipelineError::Metadata(BuildError::EmptyCommand));
    assert_eq!(e.message(), BuildError::EmptyCommand.message());
    let e = failure(prepare(
        &job,
        PrepareState::Building {
            digest: "d".to_string(),
            metadata: meta(),
        },
        failed("e"),
    ));
    assert_eq!(e.message(), "build fs image: e");
    let e = failure(prepare(
        &job,
        PrepareState::Installing {
            digest: "d".to_string(),
            metadata: meta(),
        },
        failed("e"),
    ));
    assert_eq!(e, PipelineError::Cache("e".to_string()));
    let e = failure(prepare(
        &job,
        PrepareState::Writing {
            digest: "d".to_string(),
            metadata: meta(),
        },
        failed("e"),
    ));
    assert_eq!(e, PipelineError::Cache("e".to_string()));
}

#[test]
fn an_image_without_layers_goes_straight_to_the_injection() {
    let job = job();
    let state = next(prepare(
        &job,
        PrepareState::Staging { pulled: pulled(0) },
        PrepareEvent::Done,
    ));
    assert!(matches!(state, PrepareState::Injecting { .. }));
}

#[test]
fn an_event_that_answers_nothing_changes_nothing() {
    let job = job();
    let state = next(prepare(&job, pulling(), PrepareEvent::Done));
    assert!(matches!(state, PrepareState::Pulling { .. }));
    let state = next(prepare(&job, dirs(), missed()));
    assert!(matches!(state, PrepareState::Dirs { .. }));
}

#[test]
fn digest_values_have_no_algorithm() {
    assert_eq!(strip_prefix("sha256:abc"), "abc");
    assert_eq!(strip_prefix("abc"), "abc");
}

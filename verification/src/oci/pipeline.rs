//! From an image reference to a cached file system image and launch metadata.
//!
//! Preparing an image alternates work on the network and the file system with
//! decisions. The decisions are a state machine: in each state one piece of
//! work is to be done, and what comes of it leads to the next state or to the
//! end.
//!
//! The cache is looked up first. Where the reference carries a digest, a hit
//! costs no work but the lookup. For another reference only the registry knows
//! the digest: its manifest, and nothing else, is asked for before the lookup.
//! Directories are created and layers are pulled on a miss alone.

use super::cache::{
    fs_slot, looked_up, written, CacheLayout, CachedImage, CachedMetadata, MetadataWrite,
};
use super::client::{
    carried_digest, check_reference, reference_digest, reference_fault, ImageLayer, PullError,
    PulledImage,
};
use super::flatten::{apply_layer_bytes, plans_layer, LayerPlan};
use super::metadata::{launch_of, BuildError, LaunchMetadata, Platform};
use crate::path::{
    components, join_text, law_join_adds_a_step, lemma_rooted_text, lemma_utf8_injective, path_list,
    Part, UnixPath, SLASH,
};
use crate::string_map::StringMap;
use crate::text::{concat, concat3, owned, same_text, split_at_first, split_once};
use vstd::prelude::*;
use vstd::utf8::*;

verus! {

/// Environment overrides of the sandbox and of its template.
#[derive(Debug)]
pub struct EnvOverrides {
    pub template: StringMap,
    pub spec: StringMap,
}

impl Clone for EnvOverrides {
    fn clone(&self) -> (r: Self)
        ensures
            r.template@ == self.template@,
            r.spec@ == self.spec@,
    {
        EnvOverrides { template: self.template.clone(), spec: self.spec.clone() }
    }
}

impl Default for EnvOverrides {
    fn default() -> (r: Self)
        ensures
            r.template@ == Map::<Seq<char>, Seq<char>>::empty(),
            r.spec@ == Map::<Seq<char>, Seq<char>>::empty(),
    {
        EnvOverrides { template: StringMap::new(), spec: StringMap::new() }
    }
}

/// Why an image could not be prepared.
#[derive(Debug, PartialEq, Eq)]
pub enum PipelineError {
    /// Work on the cache directory failed.
    Cache(String),
    Pull(PullError),
    /// A layer could not be applied.
    Flatten(String),
    /// The compatibility files could not be injected.
    Compat(String),
    Metadata(BuildError),
    /// The file system image could not be built.
    Build(String),
}

impl PipelineError {
    /// The error as text.
    pub open spec fn text(self) -> Seq<char> {
        match self {
            PipelineError::Cache(e) => "cache I/O: "@ + e@,
            PipelineError::Pull(e) => e.text(),
            PipelineError::Flatten(e) => "flatten layer: "@ + e@,
            PipelineError::Compat(e) => "inject compat files: "@ + e@,
            PipelineError::Metadata(e) => e.text(),
            PipelineError::Build(e) => "build fs image: "@ + e@,
        }
    }

    /// The error as text.
    pub fn message(&self) -> (r: String)
        ensures
            r@ == self.text(),
    {
        match self {
            PipelineError::Cache(e) => concat("cache I/O: ", e.as_str()),
            PipelineError::Pull(e) => e.message(),
            PipelineError::Flatten(e) => concat("flatten layer: ", e.as_str()),
            PipelineError::Compat(e) => concat("inject compat files: ", e.as_str()),
            PipelineError::Metadata(e) => e.message(),
            PipelineError::Build(e) => concat("build fs image: ", e.as_str()),
        }
    }
}

/// Checks that an image reference is structurally right before the registry is
/// asked.
pub fn validate_reference(image_ref: &str) -> (r: Result<(), PipelineError>)
    ensures
        match r {
            Ok(_) => reference_fault(image_ref@) is None,
            Err(PipelineError::Pull(PullError::InvalidReference(e))) => reference_fault(image_ref@)
                == Some(e@),
            Err(_) => false,
        },
        image_ref@.len() == 0 ==> (r matches Err(
            PipelineError::Pull(PullError::InvalidReference(e)),
        ) && e@ == "repository name must have at least one component"@),
{
    match check_reference(image_ref) {
        Ok(_) => Ok(()),
        Err(e) => Err(PipelineError::Pull(e)),
    }
}

// ---------------------------------------------------------------------
// Staging paths
// ---------------------------------------------------------------------
/// The value of a digest, without its algorithm.
pub open spec fn digest_value(digest: Seq<char>) -> Seq<char> {
    match split_at_first(digest, ':') {
        Some((_, hex)) => hex,
        None => digest,
    }
}

/// The value of a digest, without its algorithm.
pub fn strip_prefix(digest: &str) -> (r: String)
    ensures
        r@ == digest_value(digest@),
{
    match split_once(digest, ':') {
        Some((_, hex)) => hex,
        None => owned(digest),
    }
}

/// The directory in which the tree of an image is put together.
pub open spec fn staging_dir(root: Seq<u8>, digest: Seq<char>) -> Seq<u8> {
    join_text(join_text(root, "tmp"@), "stage-"@ + digest_value(digest))
}

/// The file that the image is built into.
pub open spec fn built_file(root: Seq<u8>, digest: Seq<char>) -> Seq<u8> {
    join_text(join_text(root, "tmp"@), "build-"@ + digest_value(digest) + ".squashfs"@)
}

fn staging_path(cache: &CacheLayout, digest: &str) -> (r: UnixPath)
    ensures
        r@ == staging_dir(cache@, digest@),
{
    let name: String = concat("stage-", strip_prefix(digest).as_str());
    cache.tmp_dir().join(name.as_str())
}

fn built_path(cache: &CacheLayout, digest: &str) -> (r: UnixPath)
    ensures
        r@ == built_file(cache@, digest@),
{
    let name: String = concat3("build-", strip_prefix(digest).as_str(), ".squashfs");
    cache.tmp_dir().join(name.as_str())
}

// ---------------------------------------------------------------------
// The machine
// ---------------------------------------------------------------------
/// What is to be prepared.
#[derive(Debug)]
pub struct PrepareJob {
    pub cache: CacheLayout,
    pub platform: Platform,
    pub image_ref: String,
    pub overrides: EnvOverrides,
}

/// Where the preparation of an image stands.
#[derive(Debug)]
pub enum PrepareState {
    /// The digest that the reference carries is to be looked up in the cache.
    Seeking { digest: String },
    /// The registry is to be asked for the digest of the image's manifest.
    Resolving,
    /// The digest that the registry gave is to be looked up in the cache.
    Checking { digest: String },
    /// The cache directories are to be created.
    Dirs { digest: String },
    /// The image is to be pulled.
    Pulling { digest: String },
    /// The image that was pulled has another digest than the one looked up, and
    /// is to be looked up in the cache.
    Looking { pulled: PulledImage },
    /// The staging directory is to be emptied and created.
    Staging { pulled: PulledImage },
    /// The layer with this index is to be applied.
    Layering { pulled: PulledImage, layer: usize },
    /// The compatibility files are to be injected.
    Injecting { pulled: PulledImage },
    /// The file system image is to be built.
    Building { digest: String, metadata: LaunchMetadata },
    /// The staging directory is to be removed.
    Cleaning { digest: String, metadata: LaunchMetadata },
    /// The file system image is to be moved into the cache.
    Installing { digest: String, metadata: LaunchMetadata },
    /// The launch metadata is to be written to the cache.
    Writing { digest: String, metadata: LaunchMetadata },
}

/// The work that is to be done in a state.
#[derive(Debug)]
pub enum PrepareWork {
    Lookup { digest: String },
    Resolve { image_ref: String },
    CreateDirs { dirs: Vec<UnixPath> },
    Pull { image_ref: String },
    ResetDir { path: UnixPath },
    ApplyLayer { layer: usize, plan: LayerPlan },
    Inject { root: UnixPath },
    BuildImage { source: UnixPath, dest: UnixPath },
    RemoveDir { path: UnixPath },
    Install { digest: String, built: UnixPath },
    WriteMetadata { digest: String, metadata: LaunchMetadata },
}

/// What came of the work.
#[derive(Debug)]
pub enum PrepareEvent {
    /// It was done.
    Done,
    /// It failed with this text.
    Failed { error: String },
    /// The digest that the registry gives for a reference.
    Resolved { digest: Result<String, PullError> },
    /// The answer to a pull.
    Pulled { result: Result<PulledImage, PullError> },
    /// What the cache holds of the image.
    Looked { fs_is_file: bool, metadata_is_file: bool, stored: Option<CachedMetadata> },
}

/// Where an event leads.
#[derive(Debug)]
pub enum PrepareStep {
    Next { state: PrepareState },
    Finished { image: CachedImage },
    Failed { error: PipelineError },
}

/// Whether an event answers the work of a state.
pub open spec fn answers(state: PrepareState, event: PrepareEvent) -> bool {
    match state {
        PrepareState::Seeking { .. } => event is Looked,
        PrepareState::Resolving => event is Resolved,
        PrepareState::Checking { .. } => event is Looked,
        PrepareState::Pulling { .. } => event is Pulled,
        PrepareState::Looking { .. } => event is Looked,
        _ => event is Done || event is Failed,
    }
}

/// The state in which the layers of an image are applied from `layer` on.
pub open spec fn layers_from(pulled: PulledImage, layer: int) -> PrepareState {
    if layer < pulled.layers@.len() {
        PrepareState::Layering { pulled, layer: layer as usize }
    } else {
        PrepareState::Injecting { pulled }
    }
}

/// Whether an event tells that the cache holds the image.
pub open spec fn is_hit(event: PrepareEvent) -> bool {
    event is Looked && event->fs_is_file && event->metadata_is_file && event->stored is Some
}

/// Whether a lookup of `digest` leads to `step`: to what the cache holds on a
/// hit, and to the state `miss` else.
pub open spec fn lookup_leads(
    job: PrepareJob,
    digest: Seq<char>,
    event: PrepareEvent,
    miss: PrepareState,
    step: PrepareStep,
) -> bool {
    if is_hit(event) {
        step matches PrepareStep::Finished { image } && image.fs_image@ == fs_slot(
            job.cache@,
            digest,
            job.platform,
        ) && image.metadata == (event->stored->0).launch
    } else {
        step == (PrepareStep::Next { state: miss })
    }
}

/// Whether a preparation begins with `step`.
pub open spec fn begins(job: PrepareJob, step: PrepareStep) -> bool {
    match reference_fault(job.image_ref@) {
        Some(text) => step matches PrepareStep::Failed {
            error: PipelineError::Pull(PullError::InvalidReference(e)),
        } && e@ == text,
        None => match reference_digest(job.image_ref@) {
            Some(carried) => step matches PrepareStep::Next {
                state: PrepareState::Seeking { digest },
            } && digest@ == carried,
            None => step == (PrepareStep::Next { state: PrepareState::Resolving }),
        },
    }
}

/// Whether an event in a state leads to `step`.
pub open spec fn leads(
    job: PrepareJob,
    state: PrepareState,
    event: PrepareEvent,
    step: PrepareStep,
) -> bool {
    match (state, event) {
        (PrepareState::Seeking { digest }, PrepareEvent::Looked { .. }) => lookup_leads(
            job,
            digest@,
            event,
            PrepareState::Resolving,
            step,
        ),
        (PrepareState::Resolving, PrepareEvent::Resolved { digest }) => match digest {
            Ok(digest) => step == (PrepareStep::Next { state: PrepareState::Checking { digest } }),
            Err(e) => step == (PrepareStep::Failed { error: PipelineError::Pull(e) }),
        },
        (PrepareState::Checking { digest }, PrepareEvent::Looked { .. }) => lookup_leads(
            job,
            digest@,
            event,
            PrepareState::Dirs { digest },
            step,
        ),
        (PrepareState::Dirs { digest }, PrepareEvent::Done) => step == (PrepareStep::Next {
            state: PrepareState::Pulling { digest },
        }),
        (PrepareState::Dirs { .. }, PrepareEvent::Failed { error }) => step == (
        PrepareStep::Failed { error: PipelineError::Cache(error) }),
        (PrepareState::Pulling { digest }, PrepareEvent::Pulled { result }) => match result {
            Ok(pulled) => step == (PrepareStep::Next {
                state: if pulled.manifest_digest@ == digest@ {
                    PrepareState::Staging { pulled }
                } else {
                    PrepareState::Looking { pulled }
                },
            }),
            Err(e) => step == (PrepareStep::Failed { error: PipelineError::Pull(e) }),
        },
        (PrepareState::Looking { pulled }, PrepareEvent::Looked { .. }) => lookup_leads(
            job,
            pulled.manifest_digest@,
            event,
            PrepareState::Staging { pulled },
            step,
        ),
        (PrepareState::Staging { pulled }, PrepareEvent::Done) => step == (PrepareStep::Next {
            state: layers_from(pulled, 0),
        }),
        (PrepareState::Staging { .. }, PrepareEvent::Failed { error }) => step == (
        PrepareStep::Failed { error: PipelineError::Cache(error) }),
        (PrepareState::Layering { pulled, layer }, PrepareEvent::Done) => step == (
        PrepareStep::Next { state: layers_from(pulled, layer + 1) }),
        (PrepareState::Layering { .. }, PrepareEvent::Failed { error }) => step == (
        PrepareStep::Failed { error: PipelineError::Flatten(error) }),
        (PrepareState::Injecting { pulled }, PrepareEvent::Done) => match step {
            PrepareStep::Next { state: PrepareState::Building { digest, metadata } } => digest
                == pulled.manifest_digest && launch_of(
                pulled.image_config,
                job.overrides.template@,
                job.overrides.spec@,
                Ok(metadata),
            ),
            PrepareStep::Failed { error: PipelineError::Metadata(e) } => launch_of(
                pulled.image_config,
                job.overrides.template@,
                job.overrides.spec@,
                Err(e),
            ),
            _ => false,
        },
        (PrepareState::Injecting { .. }, PrepareEvent::Failed { error }) => step == (
        PrepareStep::Failed { error: PipelineError::Compat(error) }),
        (PrepareState::Building { digest, metadata }, PrepareEvent::Done) => step == (
        PrepareStep::Next { state: PrepareState::Cleaning { digest, metadata } }),
        (PrepareState::Building { .. }, PrepareEvent::Failed { error }) => step == (
        PrepareStep::Failed { error: PipelineError::Build(error) }),
        (PrepareState::Cleaning { digest, metadata }, PrepareEvent::Done) => step == (
        PrepareStep::Next { state: PrepareState::Installing { digest, metadata } }),
        (PrepareState::Cleaning { digest, metadata }, PrepareEvent::Failed { .. }) => step == (
        PrepareStep::Next { state: PrepareState::Installing { digest, metadata } }),
        (PrepareState::Installing { digest, metadata }, PrepareEvent::Done) => step == (
        PrepareStep::Next { state: PrepareState::Writing { digest, metadata } }),
        (PrepareState::Installing { .. }, PrepareEvent::Failed { error }) => step == (
        PrepareStep::Failed { error: PipelineError::Cache(error) }),
        (PrepareState::Writing { digest, metadata }, PrepareEvent::Done) => step matches
            PrepareStep::Finished { image } && image.fs_image@ == fs_slot(
            job.cache@,
            digest@,
            job.platform,
        ) && image.metadata == metadata,
        (PrepareState::Writing { .. }, PrepareEvent::Failed { error }) => step == (
        PrepareStep::Failed { error: PipelineError::Cache(error) }),
        (state, _) => step == (PrepareStep::Next { state }),
    }
}

/// Whether `work` is what a state asks for.
pub open spec fn asks(job: PrepareJob, state: PrepareState, work: PrepareWork) -> bool {
    match state {
        PrepareState::Seeking { digest } => work matches PrepareWork::Lookup { digest: d } && d@
            == digest@,
        PrepareState::Resolving => work matches PrepareWork::Resolve { image_ref } && image_ref@
            == job.image_ref@,
        PrepareState::Checking { digest } => work matches PrepareWork::Lookup { digest: d } && d@
            == digest@,
        PrepareState::Dirs { .. } => work matches PrepareWork::CreateDirs { dirs } && path_list(
            dirs@,
        ) == super::cache::cache_dirs(job.cache@),
        PrepareState::Pulling { .. } => work matches PrepareWork::Pull { image_ref } && image_ref@
            == job.image_ref@,
        PrepareState::Looking { pulled } => work matches PrepareWork::Lookup { digest } && digest@
            == pulled.manifest_digest@,
        PrepareState::Staging { pulled } => work matches PrepareWork::ResetDir { path } && path@
            == staging_dir(job.cache@, pulled.manifest_digest@),
        PrepareState::Layering { pulled, layer } => work matches PrepareWork::ApplyLayer {
            layer: l,
            plan,
        } && l == layer && if layer < pulled.layers@.len() {
            plans_layer(
                plan,
                staging_dir(job.cache@, pulled.manifest_digest@),
                pulled.layers@[layer as int].media_type@,
                pulled.layers@[layer as int].data@,
            )
        } else {
            plan.steps@.len() == 0 && plan.fault is None
        },
        PrepareState::Injecting { pulled } => work matches PrepareWork::Inject { root } && root@
            == staging_dir(job.cache@, pulled.manifest_digest@),
        PrepareState::Building { digest, .. } => work matches PrepareWork::BuildImage {
            source,
            dest,
        } && source@ == staging_dir(job.cache@, digest@) && dest@ == built_file(
            job.cache@,
            digest@,
        ),
        PrepareState::Cleaning { digest, .. } => work matches PrepareWork::RemoveDir { path }
            && path@ == staging_dir(job.cache@, digest@),
        PrepareState::Installing { digest, .. } => work matches PrepareWork::Install {
            digest: d,
            built,
        } && d@ == digest@ && built@ == built_file(job.cache@, digest@),
        PrepareState::Writing { digest, metadata } => work matches PrepareWork::WriteMetadata {
            digest: d,
            metadata: m,
        } && d@ == digest@ && m.same_as(metadata),
    }
}

/// The state in which the layers of an image are applied from `layer` on.
fn next_layer(pulled: PulledImage, layer: usize) -> (r: PrepareState)
    ensures
        r == layers_from(pulled, layer as int),
{
    if layer < pulled.layers.len() {
        PrepareState::Layering { pulled, layer }
    } else {
        PrepareState::Injecting { pulled }
    }
}

impl PrepareJob {
    /// What a preparation begins with: a state, or its end where the reference is
    /// none.
    pub fn start(&self) -> (r: PrepareStep)
        ensures
            begins(*self, r),
    {
        match carried_digest(self.image_ref.as_str()) {
            Ok(Some(digest)) => PrepareStep::Next { state: PrepareState::Seeking { digest } },
            Ok(None) => PrepareStep::Next { state: PrepareState::Resolving },
            Err(e) => PrepareStep::Failed { error: PipelineError::Pull(e) },
        }
    }

    /// The work that is to be done in a state.
    pub fn work(&self, state: &PrepareState) -> (r: PrepareWork)
        ensures
            asks(*self, *state, r),
    {
        match state {
            PrepareState::Seeking { digest } => PrepareWork::Lookup { digest: digest.clone() },
            PrepareState::Resolving => PrepareWork::Resolve { image_ref: self.image_ref.clone() },
            PrepareState::Checking { digest } => PrepareWork::Lookup { digest: digest.clone() },
            PrepareState::Dirs { digest: _ } => PrepareWork::CreateDirs {
                dirs: self.cache.ensure_dirs(),
            },
            PrepareState::Pulling { digest: _ } => PrepareWork::Pull {
                image_ref: self.image_ref.clone(),
            },
            PrepareState::Looking { pulled } => PrepareWork::Lookup {
                digest: pulled.manifest_digest.clone(),
            },
            PrepareState::Staging { pulled } => PrepareWork::ResetDir {
                path: staging_path(&self.cache, pulled.manifest_digest.as_str()),
            },
            PrepareState::Layering { pulled, layer } => {
                let plan: LayerPlan = if *layer < pulled.layers.len() {
                    let dest: UnixPath = staging_path(&self.cache, pulled.manifest_digest.as_str());
                    let l: &ImageLayer = &pulled.layers[*layer];
                    apply_layer_bytes(&dest, l.media_type.as_str(), &l.data)
                } else {
                    LayerPlan { steps: Vec::new(), fault: None }
                };
                PrepareWork::ApplyLayer { layer: *layer, plan }
            },
            PrepareState::Injecting { pulled } => PrepareWork::Inject {
                root: staging_path(&self.cache, pulled.manifest_digest.as_str()),
            },
            PrepareState::Building { digest, metadata: _ } => PrepareWork::BuildImage {
                source: staging_path(&self.cache, digest.as_str()),
                dest: built_path(&self.cache, digest.as_str()),
            },
            PrepareState::Cleaning { digest, metadata: _ } => PrepareWork::RemoveDir {
                path: staging_path(&self.cache, digest.as_str()),
            },
            PrepareState::Installing { digest, metadata: _ } => PrepareWork::Install {
                digest: digest.clone(),
                built: built_path(&self.cache, digest.as_str()),
            },
            PrepareState::Writing { digest, metadata } => PrepareWork::WriteMetadata {
                digest: digest.clone(),
                metadata: metadata.clone(),
            },
        }
    }
}

/// Where an event leads: to the next state or to the end of the
/// preparation. An event that does not answer the work of the state leads
/// nowhere.
pub fn prepare(job: &PrepareJob, state: PrepareState, event: PrepareEvent) -> (r: PrepareStep)
    ensures
        leads(*job, state, event, r),
{
    match (state, event) {
        (
            PrepareState::Seeking { digest },
            PrepareEvent::Looked { fs_is_file, metadata_is_file, stored },
        ) => match job.cache.lookup(
            digest.as_str(),
            job.platform,
            fs_is_file,
            metadata_is_file,
            stored,
        ) {
            Some(image) => PrepareStep::Finished { image },
            None => PrepareStep::Next { state: PrepareState::Resolving },
        },
        (PrepareState::Resolving, PrepareEvent::Resolved { digest }) => match digest {
            Ok(digest) => PrepareStep::Next { state: PrepareState::Checking { digest } },
            Err(e) => PrepareStep::Failed { error: PipelineError::Pull(e) },
        },
        (
            PrepareState::Checking { digest },
            PrepareEvent::Looked { fs_is_file, metadata_is_file, stored },
        ) => match job.cache.lookup(
            digest.as_str(),
            job.platform,
            fs_is_file,
            metadata_is_file,
            stored,
        ) {
            Some(image) => PrepareStep::Finished { image },
            None => PrepareStep::Next { state: PrepareState::Dirs { digest } },
        },
        (PrepareState::Dirs { digest }, PrepareEvent::Done) => PrepareStep::Next {
            state: PrepareState::Pulling { digest },
        },
        (PrepareState::Dirs { digest: _ }, PrepareEvent::Failed { error }) => PrepareStep::Failed {
            error: PipelineError::Cache(error),
        },
        (PrepareState::Pulling { digest }, PrepareEvent::Pulled { result }) => match result {
            Ok(pulled) => {
                if same_text(pulled.manifest_digest.as_str(), digest.as_str()) {
                    PrepareStep::Next { state: PrepareState::Staging { pulled } }
                } else {
                    PrepareStep::Next { state: PrepareState::Looking { pulled } }
                }
            },
            Err(e) => PrepareStep::Failed { error: PipelineError::Pull(e) },
        },
        (
            PrepareState::Looking { pulled },
            PrepareEvent::Looked { fs_is_file, metadata_is_file, stored },
        ) => match job.cache.lookup(
            pulled.manifest_digest.as_str(),
            job.platform,
            fs_is_file,
            metadata_is_file,
            stored,
        ) {
            Some(image) => PrepareStep::Finished { image },
            None => PrepareStep::Next { state: PrepareState::Staging { pulled } },
        },
        (PrepareState::Staging { pulled }, PrepareEvent::Done) => PrepareStep::Next {
            state: next_layer(pulled, 0),
        },
        (PrepareState::Staging { pulled: _ }, PrepareEvent::Failed { error }) =>
            PrepareStep::Failed { error: PipelineError::Cache(error) },
        (PrepareState::Layering { pulled, layer }, PrepareEvent::Done) => {
            if layer < pulled.layers.len() {
                PrepareStep::Next { state: next_layer(pulled, layer + 1) }
            } else {
                PrepareStep::Next { state: PrepareState::Injecting { pulled } }
            }
        },
        (PrepareState::Layering { pulled: _, layer: _ }, PrepareEvent::Failed { error }) =>
            PrepareStep::Failed { error: PipelineError::Flatten(error) },
        (PrepareState::Injecting { pulled }, PrepareEvent::Done) => {
            match LaunchMetadata::build(
                pulled.image_config,
                &job.overrides.template,
                &job.overrides.spec,
            ) {
                Ok(metadata) => PrepareStep::Next {
                    state: PrepareState::Building { digest: pulled.manifest_digest, metadata },
                },
                Err(e) => PrepareStep::Failed { error: PipelineError::Metadata(e) },
            }
        },
        (PrepareState::Injecting { pulled: _ }, PrepareEvent::Failed { error }) =>
            PrepareStep::Failed { error: PipelineError::Compat(error) },
        (PrepareState::Building { digest, metadata }, PrepareEvent::Done) =>
            PrepareStep::Next { state: PrepareState::Cleaning { digest, metadata } },
        (PrepareState::Building { digest: _, metadata: _ }, PrepareEvent::Failed { error }) =>
            PrepareStep::Failed { error: PipelineError::Build(error) },
        (PrepareState::Cleaning { digest, metadata }, PrepareEvent::Done) =>
            PrepareStep::Next { state: PrepareState::Installing { digest, metadata } },
        (PrepareState::Cleaning { digest, metadata }, PrepareEvent::Failed { error: _ }) =>
            PrepareStep::Next { state: PrepareState::Installing { digest, metadata } },
        (PrepareState::Installing { digest, metadata }, PrepareEvent::Done) =>
            PrepareStep::Next { state: PrepareState::Writing { digest, metadata } },
        (
            PrepareState::Installing { digest: _, metadata: _ },
            PrepareEvent::Failed { error },
        ) => PrepareStep::Failed { error: PipelineError::Cache(error) },
        (PrepareState::Writing { digest, metadata }, PrepareEvent::Done) =>
            PrepareStep::Finished {
                image: CachedImage {
                    fs_image: job.cache.fs_image_path(digest.as_str(), job.platform),
                    metadata,
                },
            },
        (PrepareState::Writing { digest: _, metadata: _ }, PrepareEvent::Failed { error }) =>
            PrepareStep::Failed { error: PipelineError::Cache(error) },
        (state, _) => PrepareStep::Next { state },
    }
}

// ---------------------------------------------------------------------
// Laws
// ---------------------------------------------------------------------
/// How many kinds of work lie ahead of a state.
pub open spec fn rank(state: PrepareState) -> nat {
    match state {
        PrepareState::Seeking { .. } => 12,
        PrepareState::Resolving => 11,
        PrepareState::Checking { .. } => 10,
        PrepareState::Dirs { .. } => 9,
        PrepareState::Pulling { .. } => 8,
        PrepareState::Looking { .. } => 7,
        PrepareState::Staging { .. } => 6,
        PrepareState::Layering { .. } => 5,
        PrepareState::Injecting { .. } => 4,
        PrepareState::Building { .. } => 3,
        PrepareState::Cleaning { .. } => 2,
        PrepareState::Installing { .. } => 1,
        PrepareState::Writing { .. } => 0,
    }
}

/// How many layers are left to apply in a state.
pub open spec fn layers_left(state: PrepareState) -> int {
    match state {
        PrepareState::Layering { pulled, layer } => pulled.layers@.len() - layer,
        _ => 0,
    }
}

/// A preparation ends: every answer leads to a kind of work further on, or to
/// the next layer.
pub proof fn law_prepare_ends(
    job: PrepareJob,
    state: PrepareState,
    event: PrepareEvent,
    next: PrepareState,
)
    requires
        answers(state, event),
        leads(job, state, event, PrepareStep::Next { state: next }),
    ensures
        rank(next) < rank(state) || (rank(next) == rank(state) && 0 < layers_left(next)
            < layers_left(state)),
{
    match state {
        PrepareState::Layering { pulled, layer } => {
            assert(pulled.layers.len() == pulled.layers@.len());
        },
        _ => {},
    }
}

/// Whether a state comes before any work but lookups and the resolution of the
/// reference.
pub open spec fn looking_up(state: PrepareState) -> bool {
    state is Seeking || state is Resolving || state is Checking
}

/// Whether the building of an image has begun in a state.
pub open spec fn building(state: PrepareState) -> bool {
    !looking_up(state) && !(state is Dirs) && !(state is Pulling) && !(state is Looking)
}

/// Building work is entered behind a missed lookup of the image's digest and no
/// other way, and no failed work leads on, but for the removal of the staging
/// directory.
pub proof fn law_build_only_after_miss(
    job: PrepareJob,
    state: PrepareState,
    event: PrepareEvent,
    next: PrepareState,
)
    requires
        answers(state, event),
        leads(job, state, event, PrepareStep::Next { state: next }),
    ensures
        next is Dirs ==> (state matches PrepareState::Checking { digest } && next == (
        PrepareState::Dirs { digest }) && !is_hit(event)),
        next is Pulling ==> (state matches PrepareState::Dirs { digest } && next == (
        PrepareState::Pulling { digest })),
        building(next) && !building(state) ==> next is Staging && ((state matches
            PrepareState::Pulling { digest } && next->Staging_pulled.manifest_digest@ == digest@)
            || (state is Looking && !is_hit(event))),
        event is Failed ==> state is Cleaning,
{
}

/// An image is handed out when the cache holds it: the preparation ends with
/// one on a hit, or once the metadata is written; and metadata is written only
/// when the image is installed.
pub proof fn law_image_only_from_cache(
    job: PrepareJob,
    state: PrepareState,
    event: PrepareEvent,
    image: CachedImage,
    next: PrepareState,
)
    requires
        answers(state, event),
    ensures
        leads(job, state, event, PrepareStep::Finished { image }) ==> is_hit(event) || (
        state is Writing && event is Done),
        leads(job, state, event, PrepareStep::Next { state: next }) && next is Writing
            ==> state is Installing && event is Done,
        leads(job, state, event, PrepareStep::Next { state: next }) && next is Installing
            ==> state is Cleaning,
        leads(job, state, event, PrepareStep::Next { state: next }) && next is Cleaning
            ==> state is Building && event is Done,
{
}

// ---------------------------------------------------------------------
// Whole runs
// ---------------------------------------------------------------------
/// Whether a preparation goes through the given states: in each of them the work
/// is answered, the answer leads to the next one, and the last answer ends it
/// with `image`.
pub open spec fn run(
    job: PrepareJob,
    states: Seq<PrepareState>,
    events: Seq<PrepareEvent>,
    image: CachedImage,
) -> bool {
    &&& states.len() == events.len()
    &&& states.len() > 0
    &&& forall|i: int| 0 <= i < states.len() ==> answers(#[trigger] states[i], events[i])
    &&& forall|i: int|
        0 <= i < states.len() - 1 ==> leads(
            job,
            #[trigger] states[i],
            events[i],
            PrepareStep::Next { state: states[i + 1] },
        )
    &&& leads(job, states.last(), events.last(), PrepareStep::Finished { image })
}

proof fn lemma_run_rank(
    job: PrepareJob,
    states: Seq<PrepareState>,
    events: Seq<PrepareEvent>,
    image: CachedImage,
    i: int,
    j: int,
)
    requires
        run(job, states, events, image),
        0 <= i <= j < states.len(),
    ensures
        rank(states[j]) <= rank(states[i]),
    decreases j - i,
{
    if i < j {
        lemma_run_rank(job, states, events, image, i, j - 1);
        assert(answers(states[j - 1], events[j - 1]));
        assert(states[j - 1 + 1] == states[j]);
        law_prepare_ends(job, states[j - 1], events[j - 1], states[j]);
    }
}

/// A cache hit costs no work: where a lookup that comes before the pull finds
/// the image, the preparation ends with what the cache holds, and in the whole
/// of it nothing was asked for but lookups and the digest of the reference. No
/// directory was created, nothing pulled, built or written.
#[verifier::spinoff_prover]
pub proof fn law_hit_asks_for_nothing(
    job: PrepareJob,
    states: Seq<PrepareState>,
    events: Seq<PrepareEvent>,
    image: CachedImage,
    i: int,
)
    requires
        begins(job, PrepareStep::Next { state: states[0] }),
        run(job, states, events, image),
        0 <= i < states.len(),
        states[i] is Seeking || states[i] is Checking,
        is_hit(events[i]),
    ensures
        i == states.len() - 1,
        image.metadata == (events[i]->stored->0).launch,
        match states[i] {
            PrepareState::Seeking { digest } => image.fs_image@ == fs_slot(
                job.cache@,
                digest@,
                job.platform,
            ),
            PrepareState::Checking { digest } => image.fs_image@ == fs_slot(
                job.cache@,
                digest@,
                job.platform,
            ),
            _ => false,
        },
        forall|j: int, work: PrepareWork|
            0 <= j < states.len() && #[trigger] asks(job, states[j], work) ==> work is Lookup
                || work is Resolve,
        reference_digest(job.image_ref@) is Some && i == 0 ==> forall|j: int, work: PrepareWork|
            0 <= j < states.len() && #[trigger] asks(job, states[j], work) ==> work is Lookup,
{
    assert(answers(states[i], events[i]));
    if i < states.len() - 1 {
        assert(leads(job, states[i], events[i], PrepareStep::Next { state: states[i + 1] }));
    }
    assert forall|j: int, work: PrepareWork|
        0 <= j < states.len() && #[trigger] asks(job, states[j], work) implies work is Lookup
        || work is Resolve by {
        lemma_run_rank(job, states, events, image, j, i);
    }
}

/// Whether, in the work of building a pulled image, the layer `l` is applied to
/// the tree by its own media type, behind the layers before it.
pub open spec fn applies_layer(
    works: Seq<PrepareWork>,
    tree: Seq<u8>,
    pulled: PulledImage,
    l: int,
) -> bool {
    works[l + 1] matches PrepareWork::ApplyLayer { layer, plan } && layer == l && plans_layer(
        plan,
        tree,
        pulled.layers@[l].media_type@,
        pulled.layers@[l].data@,
    )
}

/// Whether `works` is the work of building a pulled image: into one tree, empty
/// at first, go the layers in their order, each by its own media type, and then
/// the compatibility files; the tree is built into an image, which is installed
/// under the digest; and the metadata is written.
pub open spec fn builds(
    job: PrepareJob,
    works: Seq<PrepareWork>,
    pulled: PulledImage,
    metadata: LaunchMetadata,
) -> bool {
    let n = pulled.layers@.len() as int;
    let digest = pulled.manifest_digest@;
    let tree = staging_dir(job.cache@, digest);
    let built = built_file(job.cache@, digest);
    &&& works.len() == n + 6
    &&& works[0] matches PrepareWork::ResetDir { path } && path@ == tree
    &&& forall|l: int| 0 <= l < n ==> #[trigger] applies_layer(works, tree, pulled, l)
    &&& works[n + 1] matches PrepareWork::Inject { root } && root@ == tree
    &&& works[n + 2] matches PrepareWork::BuildImage { source, dest } && source@ == tree && dest@
        == built
    &&& works[n + 3] matches PrepareWork::RemoveDir { path } && path@ == tree
    &&& works[n + 4] matches PrepareWork::Install { digest: d, built: b } && d@ == digest && b@
        == built
    &&& works[n + 5] matches PrepareWork::WriteMetadata { digest: d, metadata: m } && d@ == digest
        && m.same_as(metadata)
}

/// The states of building a pulled image, from the layer `l` on.
spec fn built_from(
    states: Seq<PrepareState>,
    events: Seq<PrepareEvent>,
    pulled: PulledImage,
    metadata: LaunchMetadata,
    l: int,
) -> bool {
    let n = pulled.layers@.len() - l;
    let digest = pulled.manifest_digest;
    &&& states.len() == n + 5
    &&& forall|j: int|
        0 <= j < n ==> #[trigger] states[j] == (PrepareState::Layering {
            pulled,
            layer: (l + j) as usize,
        })
    &&& states[n] == (PrepareState::Injecting { pulled })
    &&& states[n + 1] == (PrepareState::Building { digest, metadata })
    &&& states[n + 2] == (PrepareState::Cleaning { digest, metadata })
    &&& states[n + 3] == (PrepareState::Installing { digest, metadata })
    &&& states[n + 4] == (PrepareState::Writing { digest, metadata })
    &&& forall|j: int| 0 <= j < n + 5 && j != n + 2 ==> #[trigger] events[j] is Done
}

#[verifier::spinoff_prover]
proof fn lemma_run_tail(
    job: PrepareJob,
    states: Seq<PrepareState>,
    events: Seq<PrepareEvent>,
    image: CachedImage,
)
    requires
        run(job, states, events, image),
        states.len() > 1,
    ensures
        run(job, states.skip(1), events.skip(1), image),
        leads(job, states[0], events[0], PrepareStep::Next { state: states.skip(1)[0] }),
        answers(states[0], events[0]),
        states.skip(1).last() == states.last(),
{
    let tail = states.skip(1);
    let rest = events.skip(1);
    assert(tail.last() == states.last());
    assert(rest.last() == events.last());
    assert forall|i: int| 0 <= i < tail.len() implies answers(#[trigger] tail[i], rest[i]) by {
        assert(answers(states[i + 1], events[i + 1]));
    }
    assert forall|i: int| 0 <= i < tail.len() - 1 implies leads(
        job,
        #[trigger] tail[i],
        rest[i],
        PrepareStep::Next { state: tail[i + 1] },
    ) by {
        assert(leads(
            job,
            states[i + 1],
            events[i + 1],
            PrepareStep::Next { state: states[i + 1 + 1] },
        ));
    }
    assert(answers(states[0], events[0]));
    assert(leads(job, states[0], events[0], PrepareStep::Next { state: states[0int + 1] }));
}

proof fn lemma_run_steps_on(
    job: PrepareJob,
    states: Seq<PrepareState>,
    events: Seq<PrepareEvent>,
    image: CachedImage,
)
    requires
        run(job, states, events, image),
        building(states[0]),
        !(states[0] is Writing),
    ensures
        states.len() > 1,
{
    assert(answers(states[0], events[0]));
    if states.len() == 1 {
        assert(leads(job, states[0], events[0], PrepareStep::Finished { image }));
    }
}

#[verifier::spinoff_prover]
proof fn lemma_run_from_inject(
    job: PrepareJob,
    states: Seq<PrepareState>,
    events: Seq<PrepareEvent>,
    image: CachedImage,
    pulled: PulledImage,
) -> (metadata: LaunchMetadata)
    requires
        run(job, states, events, image),
        states[0] == (PrepareState::Injecting { pulled }),
    ensures
        built_from(states, events, pulled, metadata, pulled.layers@.len() as int),
        launch_of(
            pulled.image_config,
            job.overrides.template@,
            job.overrides.spec@,
            Ok(metadata),
        ),
        image.fs_image@ == fs_slot(job.cache@, pulled.manifest_digest@, job.platform),
        image.metadata == metadata,
{
    lemma_run_steps_on(job, states, events, image);
    lemma_run_tail(job, states, events, image);
    let s1 = states.skip(1);
    let e1 = events.skip(1);
    let metadata = s1[0]->Building_metadata;
    lemma_run_steps_on(job, s1, e1, image);
    lemma_run_tail(job, s1, e1, image);
    let s2 = s1.skip(1);
    let e2 = e1.skip(1);
    lemma_run_steps_on(job, s2, e2, image);
    lemma_run_tail(job, s2, e2, image);
    let s3 = s2.skip(1);
    let e3 = e2.skip(1);
    lemma_run_steps_on(job, s3, e3, image);
    lemma_run_tail(job, s3, e3, image);
    let s4 = s3.skip(1);
    let e4 = e3.skip(1);
    assert(answers(s4[0], e4[0]));
    if s4.len() > 1 {
        lemma_run_tail(job, s4, e4, image);
    }
    assert(states[1] == s1[0] && states[2] == s2[0] && states[3] == s3[0] && states[4] == s4[0]);
    assert(events[1] == e1[0] && events[2] == e2[0] && events[3] == e3[0] && events[4] == e4[0]);
    metadata
}

#[verifier::spinoff_prover]
proof fn lemma_run_from_layer(
    job: PrepareJob,
    states: Seq<PrepareState>,
    events: Seq<PrepareEvent>,
    image: CachedImage,
    pulled: PulledImage,
    l: int,
) -> (metadata: LaunchMetadata)
    requires
        run(job, states, events, image),
        0 <= l <= pulled.layers@.len(),
        pulled.layers@.len() <= usize::MAX,
        states[0] == layers_from(pulled, l),
    ensures
        built_from(states, events, pulled, metadata, l),
        launch_of(
            pulled.image_config,
            job.overrides.template@,
            job.overrides.spec@,
            Ok(metadata),
        ),
        image.fs_image@ == fs_slot(job.cache@, pulled.manifest_digest@, job.platform),
        image.metadata == metadata,
    decreases pulled.layers@.len() - l,
{
    if l == pulled.layers@.len() {
        lemma_run_from_inject(job, states, events, image, pulled)
    } else {
        lemma_run_steps_on(job, states, events, image);
        lemma_run_tail(job, states, events, image);
        let s1 = states.skip(1);
        let e1 = events.skip(1);
        let metadata = lemma_run_from_layer(job, s1, e1, image, pulled, l + 1);
        let n = pulled.layers@.len() - l;
        assert forall|j: int| 0 <= j < n implies #[trigger] states[j] == (PrepareState::Layering {
            pulled,
            layer: (l + j) as usize,
        }) by {
            if j > 0 {
                assert(states[j] == s1[j - 1]);
            }
        }
        assert forall|j: int| n <= j < n + 5 implies states[j] == s1[j - 1] by {}
        assert forall|j: int| 0 <= j < n + 5 && j != n + 2 implies #[trigger] events[j] is Done by {
            if j > 0 {
                assert(events[j] == e1[j - 1]);
            }
        }
        metadata
    }
}

#[verifier::spinoff_prover]
proof fn lemma_built_works(
    job: PrepareJob,
    states: Seq<PrepareState>,
    events: Seq<PrepareEvent>,
    works: Seq<PrepareWork>,
    pulled: PulledImage,
    metadata: LaunchMetadata,
)
    requires
        states.len() > 0,
        states[0] == (PrepareState::Staging { pulled }),
        built_from(states.skip(1), events.skip(1), pulled, metadata, 0),
        pulled.layers@.len() <= usize::MAX,
        works.len() == states.len(),
        forall|i: int| 0 <= i < states.len() ==> asks(job, #[trigger] states[i], works[i]),
    ensures
        builds(job, works, pulled, metadata),
{
    let n = pulled.layers@.len() as int;
    let tree = staging_dir(job.cache@, pulled.manifest_digest@);
    assert forall|l: int| 0 <= l < n implies #[trigger] applies_layer(works, tree, pulled, l) by {
        assert(states.skip(1)[l] == states[l + 1]);
        assert(asks(job, states[l + 1], works[l + 1]));
    }
    assert(asks(job, states[0], works[0]));
    let s1 = states.skip(1);
    assert(s1[n] == states[n + 1] && s1[n + 1] == states[n + 2] && s1[n + 2] == states[n + 3]
        && s1[n + 3] == states[n + 4] && s1[n + 4] == states[n + 5]);
    assert(asks(job, states[n + 1], works[n + 1]));
    assert(asks(job, states[n + 2], works[n + 2]));
    assert(asks(job, states[n + 3], works[n + 3]));
    assert(asks(job, states[n + 4], works[n + 4]));
    assert(asks(job, states[n + 5], works[n + 5]));
}

/// What comes of a pulled image that the cache does not hold: a preparation that
/// ends has done the whole of the building work, with success in every part but
/// the removal of the tree, and hands out the image in its slot with the launch
/// metadata of the image's config and the overrides.
#[verifier::spinoff_prover]
pub proof fn law_miss_builds_the_image(
    job: PrepareJob,
    states: Seq<PrepareState>,
    events: Seq<PrepareEvent>,
    works: Seq<PrepareWork>,
    image: CachedImage,
    pulled: PulledImage,
)
    requires
        run(job, states, events, image),
        states[0] == (PrepareState::Staging { pulled }),
        works.len() == states.len(),
        forall|i: int| 0 <= i < states.len() ==> asks(job, #[trigger] states[i], works[i]),
    ensures
        builds(job, works, pulled, image.metadata),
        forall|i: int|
            0 <= i < events.len() && i != events.len() - 3 ==> (#[trigger] events[i]) is Done,
        launch_of(
            pulled.image_config,
            job.overrides.template@,
            job.overrides.spec@,
            Ok(image.metadata),
        ),
        image.fs_image@ == fs_slot(job.cache@, pulled.manifest_digest@, job.platform),
        states.last() == (PrepareState::Writing {
            digest: pulled.manifest_digest,
            metadata: image.metadata,
        }),
{
    assert(pulled.layers.len() == pulled.layers@.len());
    lemma_run_steps_on(job, states, events, image);
    lemma_run_tail(job, states, events, image);
    let s1 = states.skip(1);
    let e1 = events.skip(1);
    let metadata = lemma_run_from_layer(job, s1, e1, image, pulled, 0);
    let n = pulled.layers@.len() as int;
    assert(s1[n + 4] == states[n + 5]);
    lemma_built_works(job, states, events, works, pulled, metadata);
    assert forall|i: int| 0 <= i < events.len() && i != events.len() - 3 implies (
    #[trigger] events[i]) is Done by {
        if i > 0 {
            assert(events[i] == e1[i - 1]);
        }
    }
}

#[verifier::spinoff_prover]
proof fn lemma_run_skip(
    job: PrepareJob,
    states: Seq<PrepareState>,
    events: Seq<PrepareEvent>,
    image: CachedImage,
    k: int,
)
    requires
        run(job, states, events, image),
        0 <= k < states.len(),
    ensures
        run(job, states.skip(k), events.skip(k), image),
    decreases k,
{
    if k == 0 {
        assert(states.skip(0) =~= states);
        assert(events.skip(0) =~= events);
    } else {
        let a = states.skip(k - 1);
        let b = events.skip(k - 1);
        assert(a.skip(1) =~= states.skip(k));
        assert(b.skip(1) =~= events.skip(k));
        assert(run(job, a.skip(1), b.skip(1), image)) by {
            lemma_run_skip(job, states, events, image, k - 1);
            lemma_run_tail(job, a, b, image);
        }
    }
}

/// Where a run pulls the image that it builds, and where it begins to build it.
#[verifier::spinoff_prover]
proof fn lemma_run_pulls(
    job: PrepareJob,
    states: Seq<PrepareState>,
    events: Seq<PrepareEvent>,
    image: CachedImage,
) -> (at: (int, int))
    requires
        run(job, states, events, image),
        looking_up(states[0]) || states[0] is Dirs || states[0] is Pulling,
        states.last() is Writing,
    ensures
        0 <= at.0 < at.1 < states.len(),
        states[at.0] is Pulling,
        events[at.0] matches PrepareEvent::Pulled { result: Ok(pulled) } && states[at.1] == (
        PrepareState::Staging { pulled }),
    decreases states.len(),
{
    if states.len() == 1 {
        assert(states.last() == states[0]);
    }
    lemma_run_tail(job, states, events, image);
    let s1 = states.skip(1);
    let e1 = events.skip(1);
    assert(s1[0] == states[1]);
    if states[0] is Pulling {
        if states[1] is Staging {
            (0, 1)
        } else {
            if s1.len() == 1 {
                assert(s1.last() == s1[0]);
            }
            lemma_run_tail(job, s1, e1, image);
            assert(s1.skip(1)[0] == states[2]);
            (0, 2)
        }
    } else {
        let at = lemma_run_pulls(job, s1, e1, image);
        assert(s1[at.0] == states[at.0 + 1] && e1[at.0] == events[at.0 + 1]);
        assert(s1[at.1] == states[at.1 + 1]);
        (at.0 + 1, at.1 + 1)
    }
}

/// Whether a run that ends with `image` gets an image by the work `m`, a pull,
/// and from the work `k` on builds just that image.
pub open spec fn builds_pulled(
    job: PrepareJob,
    states: Seq<PrepareState>,
    events: Seq<PrepareEvent>,
    works: Seq<PrepareWork>,
    image: CachedImage,
    m: int,
    k: int,
) -> bool {
    &&& 0 <= m < k < states.len()
    &&& works[m] matches PrepareWork::Pull { image_ref } && image_ref@ == job.image_ref@
    &&& events[m] matches PrepareEvent::Pulled { result: Ok(pulled) } && builds(
        job,
        works.skip(k),
        pulled,
        image.metadata,
    ) && launch_of(
        pulled.image_config,
        job.overrides.template@,
        job.overrides.spec@,
        Ok(image.metadata),
    ) && image.fs_image@ == fs_slot(job.cache@, pulled.manifest_digest@, job.platform)
        && states.last() == (PrepareState::Writing {
        digest: pulled.manifest_digest,
        metadata: image.metadata,
    })
}

/// A whole preparation on a miss: the image that it hands out is the one that it
/// pulled. Every layer was applied in order, each by its own media type, into
/// one fresh tree, and the compatibility files behind them; the tree was built
/// and installed under the manifest digest; and the metadata, which is the
/// launch of the image's config under the overrides, was written.
#[verifier::rlimit(40)]
#[verifier::spinoff_prover]
pub proof fn law_whole_preparation(
    job: PrepareJob,
    states: Seq<PrepareState>,
    events: Seq<PrepareEvent>,
    works: Seq<PrepareWork>,
    image: CachedImage,
)
    requires
        begins(job, PrepareStep::Next { state: states[0] }),
        run(job, states, events, image),
        works.len() == states.len(),
        forall|i: int| 0 <= i < states.len() ==> asks(job, #[trigger] states[i], works[i]),
        !is_hit(events.last()),
    ensures
        exists|m: int, k: int| builds_pulled(job, states, events, works, image, m, k),
{
    let last = states.len() - 1;
    assert(answers(states[last], events[last]));
    assert(states.last() is Writing);
    let (m, k) = lemma_run_pulls(job, states, events, image);
    let pulled = events[m]->Pulled_result->Ok_0;
    lemma_run_skip(job, states, events, image, k);
    let s = states.skip(k);
    let e = events.skip(k);
    let w = works.skip(k);
    assert(s[0] == states[k]);
    assert forall|i: int| 0 <= i < s.len() implies asks(job, #[trigger] s[i], w[i]) by {
        assert(asks(job, states[k + i], works[k + i]));
    }
    law_miss_builds_the_image(job, s, e, w, image, pulled);
    assert(s.last() == states.last());
    assert(asks(job, states[m], works[m]));
    assert(builds_pulled(job, states, events, works, image, m, k));
}

/// What a preparation on a miss hands out, the cache gives back: with the image
/// in its slot and the metadata written, a lookup of the same digest on the same
/// platform finds the same image, where the stored record reads back as it was
/// written.
pub proof fn law_lookup_after_preparation(
    job: PrepareJob,
    states: Seq<PrepareState>,
    events: Seq<PrepareEvent>,
    image: CachedImage,
    process_id: u32,
    w: MetadataWrite,
    stored: CachedMetadata,
    found: Option<CachedImage>,
)
    requires
        run(job, states, events, image),
        states.last() matches PrepareState::Writing { digest, metadata } && written(
            job.cache@,
            digest@,
            job.platform,
            metadata,
            process_id,
            w,
        ) && looked_up(job.cache@, digest@, job.platform, true, Some(stored), found),
        stored.launch.same_as(w.record.launch),
    ensures
        found matches Some(hit) && hit.fs_image@ == image.fs_image@ && hit.metadata.same_as(
            image.metadata,
        ),
{
    let last = states.len() - 1;
    assert(answers(states[last], events[last]));
}

/// Where the tree and the image of a digest are put together: under names of
/// their own in the cache's directory for temporary files, which hold all of the
/// digest's value. So two images never share a tree or a file, and a tree is
/// never the file that it is built into.
pub proof fn law_staging_apart(root: Seq<u8>, a: Seq<char>, b: Seq<char>)
    ensures
        digest_value(a) != digest_value(b) ==> staging_dir(root, a) != staging_dir(root, b)
            && built_file(root, a) != built_file(root, b),
        staging_dir(root, a) != built_file(root, b),
        !a.contains(':') ==> digest_value(a) == a,
        !a.contains(':') ==> digest_value(a + seq![':'] + b) == b,
{
    reveal_strlit("stage-");
    reveal_strlit("build-");
    reveal_strlit(".squashfs");
    let tmp = join_text(root, "tmp"@);
    let sa = "stage-"@ + digest_value(a);
    let sb = "stage-"@ + digest_value(b);
    let ba = "build-"@ + digest_value(a) + ".squashfs"@;
    let bb = "build-"@ + digest_value(b) + ".squashfs"@;
    assert(sa[0] == 's' && sb[0] == 's' && ba[0] == 'b' && bb[0] == 'b');
    if join_text(tmp, sa) == join_text(tmp, sb) {
        lemma_one_name(tmp, sa, sb);
        assert(sa.skip(6) =~= digest_value(a));
        assert(sb.skip(6) =~= digest_value(b));
    }
    if join_text(tmp, ba) == join_text(tmp, bb) {
        lemma_one_name(tmp, ba, bb);
        assert(ba.subrange(6, ba.len() - 9) =~= digest_value(a));
        assert(bb.subrange(6, bb.len() - 9) =~= digest_value(b));
    }
    if join_text(tmp, sa) == join_text(tmp, bb) {
        lemma_one_name(tmp, sa, bb);
    }
    if !a.contains(':') {
        crate::text::lemma_first_index(a, ':');
        if crate::text::first_index(a, ':') < a.len() {
            assert(a[crate::text::first_index(a, ':')] == ':');
        }
        assert(a + seq![':'] + b =~= a.push(':') + b);
        crate::text::lemma_split_at_first_of_join(a, ':', b);
    }
}

proof fn lemma_one_name(base: Seq<u8>, a: Seq<char>, b: Seq<char>)
    requires
        join_text(base, a) == join_text(base, b),
        a.len() > 0,
        a[0] != '/',
        b.len() > 0,
        b[0] != '/',
    ensures
        a == b,
{
    lemma_rooted_text(a);
    lemma_rooted_text(b);
    let x = encode_utf8(a);
    let y = encode_utf8(b);
    if base.len() == 0 {
    } else if base.last() == SLASH {
        assert((base + x).skip(base.len() as int) =~= x);
        assert((base + y).skip(base.len() as int) =~= y);
    } else {
        let front = base.push(SLASH);
        assert((front + x).skip(front.len() as int) =~= x);
        assert((front + y).skip(front.len() as int) =~= y);
    }
    lemma_utf8_injective(a, b);
}

/// The tree of an image stands in the cache's directory for temporary files.
pub proof fn law_staging_in_tmp(root: Seq<u8>, algorithm: Seq<char>, value: Seq<char>)
    requires
        !algorithm.contains(':'),
        is_ascii_chars(value),
        !value.contains('/'),
    ensures
        ({
            let digest = algorithm + seq![':'] + value;
            let tmp = components(root).push(Part::Name(encode_utf8("tmp"@)));
            &&& components(staging_dir(root, digest)) == tmp.push(
                Part::Name(encode_utf8("stage-"@ + value)),
            )
            &&& components(built_file(root, digest)) == tmp.push(
                Part::Name(encode_utf8("build-"@ + value + ".squashfs"@)),
            )
        }),
{
    let digest = algorithm + seq![':'] + value;
    law_staging_apart(root, algorithm, value);
    reveal_strlit("tmp");
    reveal_strlit("stage-");
    reveal_strlit("build-");
    reveal_strlit(".squashfs");
    let s = "stage-"@ + value;
    let b = "build-"@ + value + ".squashfs"@;
    assert forall|i: int| 0 <= i < s.len() implies '\0' <= #[trigger] s[i] <= '\u{7f}' && s[i]
        != '/' by {
        if i >= 6 {
            assert(s[i] == value[i - 6]);
            assert(value.contains(value[i - 6]));
        }
    }
    assert forall|i: int| 0 <= i < b.len() implies '\0' <= #[trigger] b[i] <= '\u{7f}' && b[i]
        != '/' by {
        if 6 <= i < 6 + value.len() {
            assert(b[i] == value[i - 6]);
            assert(value.contains(value[i - 6]));
        } else if i >= 6 + value.len() {
            assert(b[i] == ".squashfs"@[i - 6 - value.len()]);
        }
    }
    law_join_adds_a_step(root, "tmp"@);
    law_join_adds_a_step(join_text(root, "tmp"@), s);
    law_join_adds_a_step(join_text(root, "tmp"@), b);
}

/// Which digest is asked for where: the one that the reference carries comes
/// first, then the one that the registry gives for the reference, then the one
/// that came with the pulled image; and it is the job's own reference that the
/// registry is asked about and that is pulled.
pub proof fn law_what_is_asked(
    job: PrepareJob,
    state: PrepareState,
    event: PrepareEvent,
    step: PrepareStep,
    work: PrepareWork,
)
    requires
        leads(job, state, event, step),
        asks(job, state, work),
    ensures
        begins(job, PrepareStep::Next { state }) ==> match reference_digest(job.image_ref@) {
            Some(carried) => work matches PrepareWork::Lookup { digest } && digest@ == carried,
            None => work matches PrepareWork::Resolve { image_ref } && image_ref@ == job.image_ref@,
        },
        work matches PrepareWork::Resolve { image_ref } ==> image_ref@ == job.image_ref@,
        work matches PrepareWork::Pull { image_ref } ==> image_ref@ == job.image_ref@,
        work matches PrepareWork::CreateDirs { dirs } ==> path_list(dirs@)
            == super::cache::cache_dirs(job.cache@),
        match (state, event, step) {
            (
                PrepareState::Resolving,
                PrepareEvent::Resolved { digest: Ok(given) },
                PrepareStep::Next { state: next },
            ) => forall|w: PrepareWork| #[trigger]
                asks(job, next, w) ==> (w matches PrepareWork::Lookup { digest } && digest@
                    == given@),
            (
                PrepareState::Pulling { digest: known },
                PrepareEvent::Pulled { result: Ok(pulled) },
                PrepareStep::Next { state: next },
            ) => pulled.manifest_digest@ != known@ ==> forall|w: PrepareWork| #[trigger]
                asks(job, next, w) ==> (w matches PrepareWork::Lookup { digest } && digest@
                    == pulled.manifest_digest@),
            _ => true,
        },
{
}

/// A hit hands out what the cache holds: the image in the slot of the digest
/// that was looked up, with the stored launch.
pub proof fn law_hit_hands_out_the_cached_image(
    job: PrepareJob,
    state: PrepareState,
    work: PrepareWork,
    event: PrepareEvent,
    step: PrepareStep,
)
    requires
        leads(job, state, event, step),
        asks(job, state, work),
        work is Lookup,
        event is Looked,
    ensures
        event->fs_is_file && event->metadata_is_file && event->stored is Some <==> step is Finished,
        step matches PrepareStep::Finished { image } ==> image.metadata == (event->stored
            ->0).launch && image.fs_image@ == fs_slot(job.cache@, work->Lookup_digest@, job.platform),
{
}

/// Every failure ends the preparation with its own reason, but for the removal
/// of the tree, which is only tidying: what fails in the cache directory, in a
/// layer, in the compatibility files, in the building and in the registry is told
/// apart, and the text that came with it is kept.
pub proof fn law_failures_are_told(
    job: PrepareJob,
    state: PrepareState,
    error: String,
    step: PrepareStep,
)
    requires
        leads(job, state, PrepareEvent::Failed { error }, step),
        answers(state, PrepareEvent::Failed { error }),
    ensures
        match state {
            PrepareState::Cleaning { digest, metadata } => step == (PrepareStep::Next {
                state: PrepareState::Installing { digest, metadata },
            }),
            PrepareState::Layering { .. } => step == (PrepareStep::Failed {
                error: PipelineError::Flatten(error),
            }),
            PrepareState::Injecting { .. } => step == (PrepareStep::Failed {
                error: PipelineError::Compat(error),
            }),
            PrepareState::Building { .. } => step == (PrepareStep::Failed {
                error: PipelineError::Build(error),
            }),
            _ => step == (PrepareStep::Failed { error: PipelineError::Cache(error) }),
        },
        step matches PrepareStep::Failed { error: e } ==> error@.is_suffix_of(e.text()),
{
    match step {
        PrepareStep::Failed { error: e } => {
            let t = e.text();
            assert(error@ =~= t.subrange(t.len() - error@.len(), t.len() as int));
        },
        _ => {},
    }
}

/// What the registry refuses ends the preparation with the registry's reason.
pub proof fn law_registry_failures_are_told(
    job: PrepareJob,
    state: PrepareState,
    error: PullError,
    step: PrepareStep,
)
    ensures
        leads(
            job,
            PrepareState::Resolving,
            PrepareEvent::Resolved { digest: Err(error) },
            step,
        ) ==> step == (PrepareStep::Failed { error: PipelineError::Pull(error) }),
        state is Pulling && leads(job, state, PrepareEvent::Pulled { result: Err(error) }, step)
            ==> step == (PrepareStep::Failed { error: PipelineError::Pull(error) }),
        PipelineError::Pull(error).text() == error.text(),
{
}

/// A reference that is none ends the preparation at once, with the reason.
pub proof fn law_invalid_reference_is_told(job: PrepareJob, step: PrepareStep)
    requires
        begins(job, step),
    ensures
        reference_fault(job.image_ref@) matches Some(reason) ==> (step matches PrepareStep::Failed {
            error,
        } && reason.is_suffix_of(error.text())),
        reference_fault(job.image_ref@) is None ==> step is Next,
{
    match step {
        PrepareStep::Failed { error: PipelineError::Pull(PullError::InvalidReference(e)) } => {
            super::client::law_pull_error_texts(e);
        },
        _ => {},
    }
}

} // verus!

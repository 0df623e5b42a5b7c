//! Pulling an image for one guest platform, and the data that the pipeline
//! takes out of the registry's answer.

use super::metadata::{ImageConfig, Platform};
use crate::string_map::StringMap;
use crate::text::{concat, owned, same_text, split_at_first, text_opt, texts};
use vstd::prelude::*;

verus! {

/// Why an image could not be pulled.
#[derive(Debug, PartialEq, Eq)]
pub enum PullError {
    InvalidReference(String),
    Registry(String),
    MalformedConfig(String),
}

impl PullError {
    /// The error as text.
    pub open spec fn text(self) -> Seq<char> {
        match self {
            PullError::InvalidReference(e) => "invalid image reference: "@ + e@,
            PullError::Registry(e) => "registry error: "@ + e@,
            PullError::MalformedConfig(e) => "malformed OCI image config: "@ + e@,
        }
    }

    /// The error as text.
    pub fn message(&self) -> (r: String)
        ensures
            r@ == self.text(),
    {
        match self {
            PullError::InvalidReference(e) => concat("invalid image reference: ", e.as_str()),
            PullError::Registry(e) => concat("registry error: ", e.as_str()),
            PullError::MalformedConfig(e) => concat("malformed OCI image config: ", e.as_str()),
        }
    }
}

// ---------------------------------------------------------------------
// References
// ---------------------------------------------------------------------
/// The text of the error with which `oci_client::Reference::from_str` rejects
/// an image reference; none where it accepts.
pub uninterp spec fn reference_fault(image_ref: Seq<char>) -> Option<Seq<char>>;

/// Parses an image reference with `oci_client::Reference::from_str`.
///
/// Which references it accepts, and with which text it rejects the others, is
/// a function of the reference alone, here only named; but an empty reference
/// is rejected for want of a repository name.
#[verifier::external_body]
fn parse_reference(image_ref: &str) -> (r: Option<String>)
    ensures
        text_opt(r) == reference_fault(image_ref@),
        image_ref@.len() == 0 ==> text_opt(r) == Some(
            "repository name must have at least one component"@,
        ),
{
    match <oci_client::Reference as std::str::FromStr>::from_str(image_ref) {
        Ok(_) => None,
        Err(e) => Some(e.to_string()),
    }
}

/// What a parse of an image reference, by the text of its error if it has one,
/// means for a pull.
pub fn reference_outcome(fault: Option<String>) -> (r: Result<(), PullError>)
    ensures
        match fault {
            None => r is Ok,
            Some(e) => r == Err::<(), PullError>(PullError::InvalidReference(e)),
        },
{
    match fault {
        None => Ok(()),
        Some(e) => Err(PullError::InvalidReference(e)),
    }
}

/// Checks that an image reference is one.
pub fn check_reference(image_ref: &str) -> (r: Result<(), PullError>)
    ensures
        match r {
            Ok(_) => reference_fault(image_ref@) is None,
            Err(PullError::InvalidReference(e)) => reference_fault(image_ref@) == Some(e@),
            Err(_) => false,
        },
        image_ref@.len() == 0 ==> (r matches Err(PullError::InvalidReference(e)) && e@
            == "repository name must have at least one component"@),
{
    reference_outcome(parse_reference(image_ref))
}

/// The digest that an accepted image reference carries: what follows its first
/// `@`, if it has one.
pub open spec fn reference_digest(image_ref: Seq<char>) -> Option<Seq<char>> {
    match split_at_first(image_ref, '@') {
        Some((_, digest)) => Some(digest),
        None => None,
    }
}

/// The digest of an image reference, by `oci_client::Reference::digest` on what
/// `from_str` makes of it: claims that a reference which is accepted carries the
/// digest behind its first `@`, and none where it has no `@`.
#[verifier::external_body]
fn digest_of(image_ref: &str) -> (r: Option<String>)
    requires
        reference_fault(image_ref@) is None,
    ensures
        text_opt(r) == reference_digest(image_ref@),
{
    match <oci_client::Reference as std::str::FromStr>::from_str(image_ref) {
        Ok(reference) => reference.digest().map(String::from),
        Err(_) => None,
    }
}

/// Checks that an image reference is one, and gives the digest that it carries.
pub fn carried_digest(image_ref: &str) -> (r: Result<Option<String>, PullError>)
    ensures
        match r {
            Ok(digest) => reference_fault(image_ref@) is None && text_opt(digest)
                == reference_digest(image_ref@),
            Err(PullError::InvalidReference(e)) => reference_fault(image_ref@) == Some(e@),
            Err(_) => false,
        },
{
    match check_reference(image_ref) {
        Ok(_) => Ok(digest_of(image_ref)),
        Err(e) => Err(e),
    }
}

// ---------------------------------------------------------------------
// Image indexes
// ---------------------------------------------------------------------
/// Platform of an entry of an image index.
#[derive(Debug, PartialEq, Eq)]
pub struct EntryPlatform {
    pub os: String,
    pub architecture: String,
}

/// Entry of an image index.
#[derive(Debug, PartialEq, Eq)]
pub struct IndexEntry {
    pub digest: String,
    pub platform: Option<EntryPlatform>,
}

impl IndexEntry {
    /// Whether the entry is for the given platform.
    pub open spec fn is_for(self, platform: Platform) -> bool {
        match self.platform {
            Some(p) => p.os@ == "linux"@ && p.architecture@ == platform.arch_text(),
            None => false,
        }
    }
}

/// The first entry for the given platform; the number of entries where there
/// is none.
pub open spec fn first_for(entries: Seq<IndexEntry>, platform: Platform) -> int
    decreases entries.len(),
{
    if entries.len() == 0 {
        0
    } else if entries[0].is_for(platform) {
        0
    } else {
        1 + first_for(entries.skip(1), platform)
    }
}

/// The digest of the first index entry for the given platform.
pub fn pick_platform(entries: &Vec<IndexEntry>, platform: Platform) -> (r: Option<String>)
    ensures
        ({
            let at = first_for(entries@, platform);
            match r {
                Some(digest) => 0 <= at < entries@.len() && digest@ == entries@[at].digest@
                    && entries@[at].is_for(platform),
                None => at == entries@.len(),
            }
        }),
        r is Some <==> exists|i: int|
            0 <= i < entries@.len() && (#[trigger] entries@[i]).is_for(platform),
{
    let mut i: usize = 0;
    assert(entries@.skip(0) =~= entries@);
    while i < entries.len()
        invariant
            i <= entries.len(),
            first_for(entries@, platform) == i + first_for(entries@.skip(i as int), platform),
            forall|j: int| 0 <= j < i ==> !(#[trigger] entries@[j]).is_for(platform),
        decreases entries.len() - i,
    {
        assert(entries@.skip(i as int)[0] == entries@[i as int]);
        let fits: bool = match &entries[i].platform {
            Some(p) => same_text(p.os.as_str(), platform.os()) && same_text(
                p.architecture.as_str(),
                platform.arch(),
            ),
            None => false,
        };
        assert(fits == entries@[i as int].is_for(platform));
        if fits {
            return Some(entries[i].digest.clone());
        }
        assert(entries@.skip(i as int).skip(1) =~= entries@.skip(i + 1));
        i = i + 1;
    }
    assert(entries@.skip(i as int).len() == 0);
    None
}

// ---------------------------------------------------------------------
// Image configs
// ---------------------------------------------------------------------
/// The `config` object of an OCI image config as it was decoded.
#[derive(Debug)]
pub struct InnerConfig {
    pub entrypoint: Option<Vec<String>>,
    pub cmd: Option<Vec<String>>,
    pub env: Option<Vec<String>>,
    pub working_dir: Option<String>,
    pub labels: Option<StringMap>,
    pub stop_signal: Option<String>,
}

/// An OCI image config as it was decoded.
#[derive(Debug)]
pub struct RawConfig {
    pub config: Option<InnerConfig>,
}

/// The texts in an optional list; none where it is missing.
pub open spec fn texts_or_none(list: Option<Vec<String>>) -> Seq<Seq<char>> {
    match list {
        Some(l) => texts(l@),
        None => Seq::empty(),
    }
}

/// The text in an optional string; empty where it is missing.
pub open spec fn text_or_empty(s: Option<String>) -> Seq<char> {
    match s {
        Some(t) => t@,
        None => Seq::empty(),
    }
}

/// The entries of an optional map; none where it is missing.
pub open spec fn map_or_empty(m: Option<StringMap>) -> Map<Seq<char>, Seq<char>> {
    match m {
        Some(map) => map@,
        None => Map::empty(),
    }
}

/// Whether `config` holds what `raw` says, and nothing where it says nothing.
pub open spec fn normalizes(raw: RawConfig, config: ImageConfig) -> bool {
    match raw.config {
        Some(inner) => {
            &&& texts(config.entrypoint@) == texts_or_none(inner.entrypoint)
            &&& texts(config.cmd@) == texts_or_none(inner.cmd)
            &&& texts(config.env@) == texts_or_none(inner.env)
            &&& config.working_dir@ == text_or_empty(inner.working_dir)
            &&& config.labels@ == map_or_empty(inner.labels)
            &&& config.stop_signal@ == text_or_empty(inner.stop_signal)
        },
        None => {
            &&& config.entrypoint@.len() == 0
            &&& config.cmd@.len() == 0
            &&& config.env@.len() == 0
            &&& config.working_dir@.len() == 0
            &&& config.labels@ == Map::<Seq<char>, Seq<char>>::empty()
            &&& config.stop_signal@.len() == 0
        },
    }
}

fn list_or_none(list: Option<Vec<String>>) -> (r: Vec<String>)
    ensures
        texts(r@) == texts_or_none(list),
{
    match list {
        Some(l) => l,
        None => {
            let r: Vec<String> = Vec::new();
            assert(texts(r@) =~= Seq::<Seq<char>>::empty());
            r
        },
    }
}

fn string_or_empty(s: Option<String>) -> (r: String)
    ensures
        r@ == text_or_empty(s),
{
    match s {
        Some(t) => t,
        None => {
            proof {
                reveal_strlit("");
                assert(""@ =~= Seq::<char>::empty());
            }
            owned("")
        },
    }
}

/// The image config that a decoded OCI image config comes to; what could not
/// be decoded is an error.
pub fn parse_image_config(decoded: Result<RawConfig, String>) -> (r: Result<
    ImageConfig,
    PullError,
>)
    ensures
        match decoded {
            Ok(raw) => r matches Ok(config) && normalizes(raw, config),
            Err(e) => r == Err::<ImageConfig, PullError>(PullError::MalformedConfig(e)),
        },
{
    let raw: RawConfig = match decoded {
        Ok(raw) => raw,
        Err(e) => {
            return Err(PullError::MalformedConfig(e));
        },
    };
    match raw.config {
        Some(inner) => Ok(
            ImageConfig {
                entrypoint: list_or_none(inner.entrypoint),
                cmd: list_or_none(inner.cmd),
                env: list_or_none(inner.env),
                working_dir: string_or_empty(inner.working_dir),
                labels: match inner.labels {
                    Some(map) => map,
                    None => StringMap::new(),
                },
                stop_signal: string_or_empty(inner.stop_signal),
            },
        ),
        None => {
            proof {
                reveal_strlit("");
            }
            Ok(ImageConfig::default())
        },
    }
}

// ---------------------------------------------------------------------
// Pulled images
// ---------------------------------------------------------------------
/// One layer of an image.
#[derive(Debug)]
pub struct ImageLayer {
    pub media_type: String,
    pub data: Vec<u8>,
}

/// Image pulled from a registry.
#[derive(Debug)]
pub struct PulledImage {
    /// Manifest digest (`sha256:...`), used as the cache key.
    pub manifest_digest: String,
    /// Layers in application order (lower to upper).
    pub layers: Vec<ImageLayer>,
    /// Normalized image config.
    pub image_config: ImageConfig,
}

/// What the registry answered to a pull: the manifest digest, if it returned
/// one, the layers and the decoded image config.
#[derive(Debug)]
pub struct RegistryImage {
    pub digest: Option<String>,
    pub layers: Vec<ImageLayer>,
    pub config: Result<RawConfig, String>,
}

/// Whether `r` is what the registry's answer comes to.
pub open spec fn pulled_from(
    answer: Result<RegistryImage, String>,
    r: Result<PulledImage, PullError>,
) -> bool {
    match answer {
        Err(e) => r == Err::<PulledImage, PullError>(PullError::Registry(e)),
        Ok(image) => match (image.digest, image.config) {
            (None, _) => r matches Err(PullError::Registry(e)) && e@
                == "registry did not return a manifest digest"@,
            (Some(_), Err(e)) => r == Err::<PulledImage, PullError>(PullError::MalformedConfig(e)),
            (Some(digest), Ok(raw)) => r matches Ok(pulled) && pulled.manifest_digest == digest
                && pulled.layers == image.layers && normalizes(raw, pulled.image_config),
        },
    }
}

/// The pulled image that a registry's answer, or its refusal, comes to.
pub fn pulled_image(answer: Result<RegistryImage, String>) -> (r: Result<PulledImage, PullError>)
    ensures
        pulled_from(answer, r),
{
    let image: RegistryImage = match answer {
        Ok(image) => image,
        Err(e) => {
            return Err(PullError::Registry(e));
        },
    };
    let manifest_digest: String = match image.digest {
        Some(digest) => digest,
        None => {
            return Err(PullError::Registry(owned("registry did not return a manifest digest")));
        },
    };
    match parse_image_config(image.config) {
        Ok(image_config) => Ok(
            PulledImage { manifest_digest, layers: image.layers, image_config },
        ),
        Err(e) => Err(e),
    }
}

// ---------------------------------------------------------------------
// Laws
// ---------------------------------------------------------------------
/// A reference carries a digest where it holds an `@`: all of what follows the
/// first one.
pub proof fn law_reference_digest(name: Seq<char>, digest: Seq<char>)
    requires
        !name.contains('@'),
    ensures
        reference_digest(name + seq!['@'] + digest) == Some(digest),
        reference_digest(name) is None,
{
    assert(name + seq!['@'] + digest =~= name.push('@') + digest);
    crate::text::lemma_split_at_first_of_join(name, '@', digest);
    crate::text::lemma_first_index(name, '@');
    if crate::text::first_index(name, '@') < name.len() {
        assert(name[crate::text::first_index(name, '@')] == '@');
    }
}

/// Which entry of an index is pulled: the first for Linux on the wanted
/// architecture, and none for another system or architecture.
pub proof fn law_platform_choice(entries: Seq<IndexEntry>, platform: Platform)
    ensures
        forall|i: int|
            0 <= i < entries.len() ==> ((#[trigger] entries[i]).is_for(platform) <==> (
            entries[i].platform matches Some(p) && p.os@ == "linux"@ && p.architecture@ == (
            match platform {
                Platform::LinuxAmd64 => "amd64"@,
                Platform::LinuxArm64 => "arm64"@,
            }))),
        0 <= first_for(entries, platform) <= entries.len(),
        forall|i: int|
            0 <= i < first_for(entries, platform) ==> !(#[trigger] entries[i]).is_for(platform),
        first_for(entries, platform) < entries.len() ==> entries[first_for(
            entries,
            platform,
        )].is_for(platform),
    decreases entries.len(),
{
    if entries.len() > 0 && !entries[0].is_for(platform) {
        let rest = entries.skip(1);
        law_platform_choice(rest, platform);
        assert forall|i: int| 0 <= i < first_for(entries, platform) implies !(
        #[trigger] entries[i]).is_for(platform) by {
            if i > 0 {
                assert(rest[i - 1] == entries[i]);
            }
        }
    }
}

/// Whether a list of an image's config is the one that the registry gave; none
/// counts as empty.
pub open spec fn same_list(given: Option<Vec<String>>, kept: Seq<String>) -> bool {
    match given {
        Some(list) => list@.len() == kept.len() && forall|i: int|
            0 <= i < kept.len() ==> (#[trigger] kept[i])@ == list@[i]@,
        None => kept.len() == 0,
    }
}

/// Whether a text of an image's config is the one that the registry gave; none
/// counts as empty.
pub open spec fn same_or_empty(given: Option<String>, kept: Seq<char>) -> bool {
    match given {
        Some(text) => kept == text@,
        None => kept.len() == 0,
    }
}

proof fn lemma_same_list(given: Option<Vec<String>>, kept: Seq<String>)
    requires
        texts(kept) == texts_or_none(given),
    ensures
        same_list(given, kept),
{
    assert(texts(kept).len() == kept.len());
    match given {
        Some(list) => {
            assert forall|i: int| 0 <= i < kept.len() implies (#[trigger] kept[i])@
                == list@[i]@ by {
                assert(texts(kept)[i] == texts(list@)[i]);
            }
        },
        None => {},
    }
}

/// Everything that an image's config says is kept, each part in its own place,
/// and what it leaves out is empty.
pub proof fn law_config_kept(raw: RawConfig, config: ImageConfig)
    requires
        normalizes(raw, config),
    ensures
        raw.config matches Some(inner) ==> {
            &&& same_list(inner.entrypoint, config.entrypoint@)
            &&& same_list(inner.cmd, config.cmd@)
            &&& same_list(inner.env, config.env@)
            &&& same_or_empty(inner.working_dir, config.working_dir@)
            &&& same_or_empty(inner.stop_signal, config.stop_signal@)
            &&& inner.labels matches Some(labels) ==> config.labels@ == labels@
            &&& inner.labels is None ==> config.labels@.dom() =~= Set::<Seq<char>>::empty()
        },
        raw.config is None ==> config.entrypoint@.len() == 0 && config.cmd@.len() == 0
            && config.env@.len() == 0 && config.working_dir@.len() == 0
            && config.stop_signal@.len() == 0,
{
    match raw.config {
        Some(inner) => {
            lemma_same_list(inner.entrypoint, config.entrypoint@);
            lemma_same_list(inner.cmd, config.cmd@);
            lemma_same_list(inner.env, config.env@);
        },
        None => {},
    }
}

/// What is pulled is what the registry gave: its digest, all of its layers in
/// their order, and its config; and it is pulled exactly where the registry
/// answered, with a digest, and the config could be read. Each other case has
/// its own reason.
pub proof fn law_pulled_image(
    answer: Result<RegistryImage, String>,
    r: Result<PulledImage, PullError>,
)
    requires
        pulled_from(answer, r),
    ensures
        r is Ok <==> (answer matches Ok(image) && image.digest is Some && image.config is Ok),
        r matches Ok(pulled) ==> (answer matches Ok(image) && image.digest
            == Some(pulled.manifest_digest) && pulled.layers@ == image.layers@
            && (image.config matches Ok(raw) && normalizes(raw, pulled.image_config))),
        answer matches Err(e) ==> r == Err::<PulledImage, PullError>(PullError::Registry(e)),
        answer matches Ok(image) ==> (image.digest is Some ==> (image.config matches Err(e) ==> r
            == Err::<PulledImage, PullError>(PullError::MalformedConfig(e)))),
        r matches Err(e) ==> !(e is InvalidReference),
{
}

/// The reason of a failed pull is at the end of its text, and the three kinds
/// are told apart by what stands before it.
pub proof fn law_pull_error_texts(reason: String)
    ensures
        reason@.is_suffix_of(PullError::InvalidReference(reason).text()),
        reason@.is_suffix_of(PullError::Registry(reason).text()),
        reason@.is_suffix_of(PullError::MalformedConfig(reason).text()),
        PullError::InvalidReference(reason).text()[0] == 'i',
        PullError::Registry(reason).text()[0] == 'r',
        PullError::MalformedConfig(reason).text()[0] == 'm',
{
    reveal_strlit("invalid image reference: ");
    reveal_strlit("registry error: ");
    reveal_strlit("malformed OCI image config: ");
    let a = PullError::InvalidReference(reason).text();
    let b = PullError::Registry(reason).text();
    let c = PullError::MalformedConfig(reason).text();
    assert(reason@ =~= a.subrange(a.len() - reason@.len(), a.len() as int));
    assert(reason@ =~= b.subrange(b.len() - reason@.len(), b.len() as int));
    assert(reason@ =~= c.subrange(c.len() - reason@.len(), c.len() as int));
}

} // verus!

//! What applying an image layer does to a root file system tree.
//!
//! Layers are tar archives, plain or gzip-compressed, applied in order into
//! one tree. Two kinds of entries are markers and are never written out:
//! - A file named `.wh.<name>` in a layer means "delete <name>" from the tree.
//! - A file named `.wh..wh..opq` in a directory means "opaque directory":
//!   the existing children of that directory go before this layer's additions
//!   come, wherever in the layer the marker stands.
//!
//! A layer becomes a plan: one step for each archive entry, in archive order,
//! and the fault that ends the walk, if any. The plan is a function of the
//! layer's bytes; carrying it out is file I/O.

use super::archive::{list_tar, list_tar_gz, tar_gz_listing, tar_listing, Listing};
use crate::fault::FaultKind;
use crate::path::{
    byte_lists, bytes_start_with, components, copy_byte_lists, copy_bytes, copy_paths, copy_range,
    is_dot_dot, join_names, join_path, law_parent_drops_last_step, lemma_ascii_bytes,
    lemma_component_names_plain, lemma_components_of_join,
    lemma_components_of_join_dot, lemma_components_of_join_empty,
    lossy_text, name_parts, parent_path, part_view, part_views, path_list, path_opt, plain_name,
    plain_names, same_bytes, text_from_utf8, Part, UnixPath, DOT, SLASH,
};
use crate::text::{
    concat, ends_with, joined, owned, pieces, same_text, split_all, text_opt, trim, trimmed,
};
use vstd::prelude::*;
use vstd::utf8::*;

verus! {

/// Name of the file that marks its directory as opaque.
pub const OPAQUE_MARKER: &'static str = ".wh..wh..opq";

/// Prefix of the names that mark a deletion.
pub const WHITEOUT_PREFIX: &'static str = ".wh.";

// ---------------------------------------------------------------------
// Entry paths
// ---------------------------------------------------------------------
/// The names among the steps of a path: none where a step leads to the root
/// or to a parent directory.
pub open spec fn names_of(parts: Seq<Part<Seq<u8>>>) -> Option<Seq<Seq<u8>>>
    decreases parts.len(),
{
    if parts.len() == 0 {
        Some(Seq::empty())
    } else {
        match (names_of(parts.drop_last()), parts.last()) {
            (Some(names), Part::Name(n)) => Some(names.push(n)),
            (Some(names), Part::Current) => Some(names),
            _ => None,
        }
    }
}

/// The names that an entry path leads through, where it is relative, never
/// steps to a parent directory and names something.
pub open spec fn entry_names(path: Seq<u8>) -> Option<Seq<Seq<u8>>> {
    match names_of(components(path)) {
        Some(names) => if names.len() > 0 {
            Some(names)
        } else {
            None
        },
        None => None,
    }
}

/// The names that an entry path leads through; `None` for absolute and
/// parent-escaping paths.
fn sanitize_names(path: &UnixPath) -> (r: Option<Vec<Vec<u8>>>)
    ensures
        match r {
            Some(names) => names_of(components(path@)) == Some(byte_lists(names@)),
            None => names_of(components(path@)) is None,
        },
{
    let parts: Vec<Part<Vec<u8>>> = path.components();
    let ghost all = components(path@);
    let mut names: Vec<Vec<u8>> = Vec::new();
    assert(byte_lists(names@) =~= Seq::<Seq<u8>>::empty());
    let mut i: usize = 0;
    while i < parts.len()
        invariant
            i <= parts.len(),
            part_views(parts@) == all,
            names_of(all.take(i as int)) == Some(byte_lists(names@)),
            all == components(path@),
        decreases parts.len() - i,
    {
        let ghost now = all.take(i + 1);
        let ghost before = names@;
        assert(now.drop_last() =~= all.take(i as int));
        assert(now.last() == part_view(parts@[i as int]));
        match &parts[i] {
            Part::Name(n) => {
                names.push(copy_bytes(n));
                assert(byte_lists(names@) =~= byte_lists(before).push(n@));
            },
            Part::Current => {},
            _ => {
                proof {
                    lemma_names_of_prefix(all, i + 1);
                }
                return None;
            },
        }
        i = i + 1;
    }
    assert(all.take(i as int) =~= all);
    Some(names)
}

proof fn lemma_names_of_prefix(parts: Seq<Part<Seq<u8>>>, n: int)
    requires
        0 <= n <= parts.len(),
        names_of(parts.take(n)) is None,
    ensures
        names_of(parts) is None,
    decreases parts.len() - n,
{
    if n == parts.len() {
        assert(parts.take(n) =~= parts);
    } else {
        assert(parts.take(n + 1).drop_last() =~= parts.take(n));
        lemma_names_of_prefix(parts, n + 1);
    }
}

proof fn lemma_names_of_plain(parts: Seq<Part<Seq<u8>>>)
    requires
        names_of(parts) is Some,
        forall|i: int|
            0 <= i < parts.len() ==> (#[trigger] parts[i] matches Part::Name(n) ==> plain_name(n)),
    ensures
        plain_names(names_of(parts)->0),
    decreases parts.len(),
{
    if parts.len() > 0 {
        let front = parts.drop_last();
        assert forall|i: int| 0 <= i < front.len() implies (#[trigger] front[i] matches Part::Name(
            n,
        ) ==> plain_name(n)) by {
            assert(front[i] == parts[i]);
        }
        lemma_names_of_plain(front);
        assert(parts[parts.len() - 1] == parts.last());
    }
}

/// The names of an accepted entry path are plain: none is empty, `.` or `..`,
/// and none holds a separator.
pub proof fn law_entry_names_plain(path: Seq<u8>)
    requires
        entry_names(path) is Some,
    ensures
        plain_names(entry_names(path)->0),
        (entry_names(path)->0).len() > 0,
{
    lemma_component_names_plain(path);
    lemma_names_of_plain(components(path));
}

/// The names of an accepted entry are plain.
pub proof fn law_accepted_names_plain(path: Seq<u8>)
    requires
        accepted_names(path) is Some,
    ensures
        plain_names(accepted_names(path)->0),
{
    lemma_component_names_plain(path);
    lemma_names_of_plain(components(path));
}

/// An entry path cleaned of `.` steps; `None` for absolute, parent-escaping
/// and empty paths.
pub fn sanitize_relative(path: &UnixPath) -> (r: Option<UnixPath>)
    ensures
        match r {
            Some(rel) => entry_names(path@) is Some && rel@ == joined(entry_names(path@)->0, SLASH),
            None => entry_names(path@) is None,
        },
{
    match sanitize_names(path) {
        Some(names) => {
            if names.len() == 0 {
                return None;
            }
            Some(UnixPath { bytes: join_names(&names) })
        },
        None => None,
    }
}

// ---------------------------------------------------------------------
// Markers
// ---------------------------------------------------------------------
/// What an entry asks for, by its names.
pub enum Mark {
    /// Nothing: it is the top of the tree, or its last name is not UTF-8.
    Skip,
    /// The directory with these names is opaque.
    Opaque(Seq<Seq<u8>>),
    /// In the directory with these names, the file of this name goes.
    Whiteout(Seq<Seq<u8>>, Seq<u8>),
    /// The entry itself is written out.
    Add(Seq<Seq<u8>>),
}

/// What the entry with the given names asks for.
pub open spec fn mark_of(names: Seq<Seq<u8>>) -> Mark {
    let name = names.last();
    if names.len() == 0 || !valid_utf8(name) {
        Mark::Skip
    } else if name == encode_utf8(OPAQUE_MARKER@) {
        Mark::Opaque(names.drop_last())
    } else if encode_utf8(WHITEOUT_PREFIX@).is_prefix_of(name) {
        Mark::Whiteout(names.drop_last(), name.skip(encode_utf8(WHITEOUT_PREFIX@).len() as int))
    } else {
        Mark::Add(names)
    }
}

/// Whether the entry with the given names marks the deletion of the directory
/// above the one that holds it.
pub open spec fn strays(names: Seq<Seq<u8>>) -> bool {
    mark_of(names) matches Mark::Whiteout(_, target) && target == seq![DOT, DOT]
}

/// The names of an entry that is accepted: its path is relative, never steps to
/// a parent directory and is not empty, nor does it mark the deletion of one.
/// The path `.` is accepted, and has none.
pub open spec fn accepted_names(path: Seq<u8>) -> Option<Seq<Seq<u8>>> {
    match names_of(components(path)) {
        Some(names) => if components(path).len() > 0 && !strays(names) {
            Some(names)
        } else {
            None
        },
        None => None,
    }
}

/// The names of the entries in `entries` that are written out.
pub open spec fn added(entries: Seq<Seq<Seq<u8>>>) -> Seq<Seq<Seq<u8>>>
    decreases entries.len(),
{
    if entries.len() == 0 {
        Seq::empty()
    } else {
        let before = added(entries.drop_last());
        match mark_of(entries.last()) {
            Mark::Add(names) => before.push(names),
            _ => before,
        }
    }
}

// ---------------------------------------------------------------------
// Plans
// ---------------------------------------------------------------------
/// What to do for one archive entry.
#[derive(Debug, PartialEq, Eq)]
pub enum LayerStep {
    /// Nothing.
    Skip,
    /// Remove what stands below `path`, where it exists, but neither a path in
    /// `keep` nor a directory on the way to one.
    Clear { path: UnixPath, keep: Vec<UnixPath> },
    /// Remove `path` and what stands below it, where it exists.
    Remove { path: UnixPath },
    /// Create the directory `parent` and write the entry out at `path`.
    Unpack { parent: Option<UnixPath>, path: UnixPath },
}

/// The values in a step.
pub enum Step {
    Skip,
    Clear(Seq<u8>, Seq<Seq<u8>>),
    Remove(Seq<u8>),
    Unpack(Option<Seq<u8>>, Seq<u8>),
}

impl View for LayerStep {
    type V = Step;

    open spec fn view(&self) -> Step {
        match *self {
            LayerStep::Skip => Step::Skip,
            LayerStep::Clear { path, keep } => Step::Clear(path@, path_list(keep@)),
            LayerStep::Remove { path } => Step::Remove(path@),
            LayerStep::Unpack { parent, path } => Step::Unpack(path_opt(parent), path@),
        }
    }
}

/// Why a layer cannot be applied to its end.
#[derive(Debug, PartialEq, Eq)]
pub enum LayerError {
    /// An entry path is absolute, parent-escaping or empty, or it marks the
    /// deletion of a parent directory.
    UnsafePath(String),
    /// The layer is zstd-compressed.
    UnsupportedZstd(String),
    /// The media type is not one of a layer.
    UnknownMediaType(String),
    /// The archive cannot be read further.
    Archive(String),
}

impl LayerError {
    /// The error as text.
    pub open spec fn text(self) -> Seq<char> {
        match self {
            LayerError::UnsafePath(path) => "layer tar contains unsafe path: "@ + path@,
            LayerError::UnsupportedZstd(media_type) =>
                "unsupported layer media type (zstd not supported in v1): "@ + media_type@,
            LayerError::UnknownMediaType(media_type) => "unknown layer media type: "@ + media_type@,
            LayerError::Archive(fault) => fault@,
        }
    }

    /// The error as text.
    pub fn message(&self) -> (r: String)
        ensures
            r@ == self.text(),
    {
        match self {
            LayerError::UnsafePath(path) => concat(
                "layer tar contains unsafe path: ",
                path.as_str(),
            ),
            LayerError::UnsupportedZstd(media_type) => concat(
                "unsupported layer media type (zstd not supported in v1): ",
                media_type.as_str(),
            ),
            LayerError::UnknownMediaType(media_type) => concat(
                "unknown layer media type: ",
                media_type.as_str(),
            ),
            LayerError::Archive(fault) => fault.clone(),
        }
    }

    /// The kind of the error: the data is invalid, or the archive cannot be read.
    pub fn kind(&self) -> (r: FaultKind)
        ensures
            r == (if self is Archive {
                FaultKind::Other
            } else {
                FaultKind::InvalidData
            }),
    {
        match self {
            LayerError::Archive(_) => FaultKind::Other,
            _ => FaultKind::InvalidData,
        }
    }
}

/// The steps of a layer, one for each entry walked, and the fault that ends
/// the walk.
#[derive(Debug, PartialEq, Eq)]
pub struct LayerPlan {
    pub steps: Vec<LayerStep>,
    pub fault: Option<LayerError>,
}

/// The values in a list of steps.
pub open spec fn step_views(steps: Seq<LayerStep>) -> Seq<Step> {
    Seq::new(steps.len(), |i: int| steps[i]@)
}

/// The paths of entries, seen from `dest`.
pub open spec fn placed(dest: Seq<u8>, entries: Seq<Seq<Seq<u8>>>) -> Seq<Seq<u8>> {
    Seq::new(entries.len(), |i: int| join_path(dest, joined(entries[i], SLASH)))
}

/// The step for the entry with the given names, after the entries `earlier`
/// of the same layer.
pub open spec fn step_of(
    dest: Seq<u8>,
    earlier: Seq<Seq<Seq<u8>>>,
    names: Seq<Seq<u8>>,
) -> Step {
    match mark_of(names) {
        Mark::Skip => Step::Skip,
        Mark::Opaque(dir) => Step::Clear(
            join_path(dest, joined(dir, SLASH)),
            placed(dest, added(earlier)),
        ),
        Mark::Whiteout(dir, target) => Step::Remove(
            join_path(join_path(dest, joined(dir, SLASH)), target),
        ),
        Mark::Add(all) => {
            let path = join_path(dest, joined(all, SLASH));
            Step::Unpack(parent_path(path), path)
        },
    }
}

/// The number of leading entries with an accepted path.
pub open spec fn safe_count(paths: Seq<Seq<u8>>) -> int
    decreases paths.len(),
{
    if paths.len() == 0 {
        0
    } else if safe_count(paths.drop_last()) < paths.len() - 1 || accepted_names(
        paths.last(),
    ) is None {
        safe_count(paths.drop_last())
    } else {
        paths.len() as int
    }
}

/// The names of the entries with the given paths.
pub open spec fn all_names(paths: Seq<Seq<u8>>) -> Seq<Seq<Seq<u8>>> {
    Seq::new(paths.len(), |i: int| accepted_names(paths[i])->0)
}

/// The steps for entries with accepted paths.
pub open spec fn steps_of(dest: Seq<u8>, paths: Seq<Seq<u8>>) -> Seq<Step> {
    let names = all_names(paths);
    Seq::new(paths.len(), |i: int| step_of(dest, names.take(i), names[i]))
}

/// Whether `plan` is the plan of an archive that lists `paths` and then ends,
/// with `end` as the fault if there is one: a step for each entry up to the
/// first whose path is not accepted, which is then the fault.
pub open spec fn plan_for(
    plan: LayerPlan,
    dest: Seq<u8>,
    paths: Seq<Seq<u8>>,
    end: Option<Seq<char>>,
) -> bool {
    let n = safe_count(paths);
    &&& step_views(plan.steps@) == steps_of(dest, paths.take(n))
    &&& if n < paths.len() {
        plan.fault matches Some(LayerError::UnsafePath(text)) && text@ == lossy_text(paths[n])
    } else {
        match end {
            Some(text) => plan.fault matches Some(LayerError::Archive(t)) && t@ == text,
            None => plan.fault is None,
        }
    }
}

proof fn lemma_safe_count_prefix(paths: Seq<Seq<u8>>, k: int)
    requires
        0 <= k < paths.len(),
        safe_count(paths.take(k)) == k,
        accepted_names(paths[k]) is None,
    ensures
        safe_count(paths) == k,
    decreases paths.len(),
{
    let front = paths.drop_last();
    if k == paths.len() - 1 {
        assert(front =~= paths.take(k));
    } else {
        assert(front.take(k) =~= paths.take(k));
        lemma_safe_count_prefix(front, k);
    }
}

/// The names of an entry that is accepted.
fn accept_entry(path: &UnixPath, prefix: &Vec<u8>, opaque: &Vec<u8>) -> (r: Option<Vec<Vec<u8>>>)
    requires
        opaque@ == encode_utf8(OPAQUE_MARKER@),
        prefix@ == encode_utf8(WHITEOUT_PREFIX@),
    ensures
        match r {
            Some(names) => accepted_names(path@) == Some(byte_lists(names@)),
            None => accepted_names(path@) is None,
        },
{
    let parts: Vec<Part<Vec<u8>>> = path.components();
    assert(part_views(parts@).len() == parts@.len());
    if parts.len() == 0 {
        return None;
    }
    match sanitize_names(path) {
        None => None,
        Some(names) => {
            if names.len() > 0 {
                let last: usize = names.len() - 1;
                let name: &Vec<u8> = &names[last];
                assert(byte_lists(names@).last() == name@);
                if text_from_utf8(copy_bytes(name)).is_some() && !same_bytes(name, opaque)
                    && bytes_start_with(name, prefix) {
                    let target: Vec<u8> = copy_range(name, prefix.len(), name.len());
                    assert(target@ =~= name@.skip(prefix@.len() as int));
                    if is_dot_dot(&target) {
                        return None;
                    }
                }
            }
            Some(names)
        },
    }
}

/// The plan of an archive that lists `paths` and then ends, with `end` as the
/// fault if there is one.
pub fn plan_entries(dest: &UnixPath, paths: &Vec<UnixPath>, end: Option<String>) -> (r: LayerPlan)
    ensures
        plan_for(r, dest@, path_list(paths@), text_opt(end)),
{
    let ghost all = path_list(paths@);
    let mut steps: Vec<LayerStep> = Vec::new();
    let mut keep: Vec<UnixPath> = Vec::new();
    let opaque: Vec<u8> = OPAQUE_MARKER.as_bytes_vec();
    let prefix: Vec<u8> = WHITEOUT_PREFIX.as_bytes_vec();
    let mut i: usize = 0;
    assert(all.take(0) =~= Seq::<Seq<u8>>::empty());
    assert(step_views(steps@) =~= steps_of(dest@, all.take(0)));
    assert(path_list(keep@) =~= placed(dest@, added(all_names(all.take(0)))));
    while i < paths.len()
        invariant
            i <= paths.len(),
            all == path_list(paths@),
            opaque@ == encode_utf8(OPAQUE_MARKER@),
            prefix@ == encode_utf8(WHITEOUT_PREFIX@),
            safe_count(all.take(i as int)) == i,
            step_views(steps@) == steps_of(dest@, all.take(i as int)),
            path_list(keep@) == placed(dest@, added(all_names(all.take(i as int)))),
        decreases paths.len() - i,
    {
        let ghost now = all.take(i + 1);
        let ghost before = all.take(i as int);
        let ghost old_steps = steps@;
        let ghost old_keep = keep@;
        assert(now.drop_last() =~= before);
        assert(now.last() == paths@[i as int]@);
        match accept_entry(&paths[i], &prefix, &opaque) {
            None => {
                proof {
                    lemma_safe_count_prefix(all, i as int);
                }
                return LayerPlan {
                    steps,
                    fault: Some(LayerError::UnsafePath(paths[i].display())),
                };
            },
            Some(names) => {
                let ghost view = byte_lists(names@);
                assert(all_names(now) =~= all_names(before).push(view));
                assert(all_names(now).drop_last() =~= all_names(before));
                assert(all_names(now).take(i as int) =~= all_names(before));
                let step: LayerStep = step_for(dest, &names, &keep, &opaque, &prefix);
                assert(step@ == step_of(dest@, all_names(before), view)) by {
                    assert(step@ == step_kept(dest@, path_list(keep@), view));
                }
                match &step {
                    LayerStep::Unpack { parent: _, path } => {
                        keep.push(path.clone());
                        assert(path_list(keep@) =~= path_list(old_keep).push(path@));
                        assert(path_list(keep@) =~= placed(dest@, added(all_names(now))));
                    },
                    _ => {
                        assert(path_list(keep@) =~= placed(dest@, added(all_names(now))));
                    },
                }
                steps.push(step);
                assert(step_views(steps@) =~= step_views(old_steps).push(step@));
                assert forall|j: int| 0 <= j < i implies #[trigger] steps_of(dest@, before)[j]
                    == steps_of(dest@, now)[j] by {
                    assert(all_names(now).take(j) =~= all_names(before).take(j));
                }
                assert(step_views(steps@) =~= steps_of(dest@, now));
            },
        }
        i = i + 1;
    }
    assert(all.take(i as int) =~= all);
    match end {
        Some(text) => LayerPlan { steps, fault: Some(LayerError::Archive(text)) },
        None => LayerPlan { steps, fault: None },
    }
}

/// The step for the entry with the given names, where `keep` was written out
/// before.
spec fn step_kept(dest: Seq<u8>, keep: Seq<Seq<u8>>, names: Seq<Seq<u8>>) -> Step {
    match mark_of(names) {
        Mark::Opaque(dir) => Step::Clear(join_path(dest, joined(dir, SLASH)), keep),
        _ => step_of(dest, Seq::empty(), names),
    }
}

fn step_for(
    dest: &UnixPath,
    names: &Vec<Vec<u8>>,
    keep: &Vec<UnixPath>,
    opaque: &Vec<u8>,
    prefix: &Vec<u8>,
) -> (r: LayerStep)
    requires
        opaque@ == encode_utf8(OPAQUE_MARKER@),
        prefix@ == encode_utf8(WHITEOUT_PREFIX@),
    ensures
        r@ == step_kept(dest@, path_list(keep@), byte_lists(names@)),
{
    let ghost view = byte_lists(names@);
    if names.len() == 0 {
        return LayerStep::Skip;
    }
    let last: usize = names.len() - 1;
    let name: &Vec<u8> = &names[last];
    assert(view.last() == name@);
    if text_from_utf8(copy_bytes(name)).is_none() {
        return LayerStep::Skip;
    }
    let is_opaque: bool = same_bytes(name, opaque);
    let is_whiteout: bool = bytes_start_with(name, prefix);
    if is_opaque || is_whiteout {
        let mut front: Vec<Vec<u8>> = copy_byte_lists(names);
        let ghost whole = front@;
        front.pop();
        assert(byte_lists(front@) =~= byte_lists(whole).drop_last());
        let dir: UnixPath = dest.join_with(&UnixPath { bytes: join_names(&front) });
        if is_opaque {
            return LayerStep::Clear { path: dir, keep: copy_paths(keep) };
        }
        let target: Vec<u8> = copy_range(name, prefix.len(), name.len());
        assert(target@ =~= name@.skip(prefix@.len() as int));
        return LayerStep::Remove { path: dir.join_with(&UnixPath { bytes: target }) };
    }
    let path: UnixPath = dest.join_with(&UnixPath { bytes: join_names(names) });
    LayerStep::Unpack { parent: path.parent(), path }
}

// ---------------------------------------------------------------------
// Media types
// ---------------------------------------------------------------------
/// How the bytes of a layer are encoded.
#[derive(Debug, Clone, Copy, PartialEq, Eq, Structural)]
pub enum Encoding {
    Gzip,
    Plain,
    Zstd,
    Unknown,
}

/// A media type without its parameters.
pub open spec fn media_base(media_type: Seq<char>) -> Seq<char> {
    trimmed(pieces(media_type, ';')[0])
}

/// The encoding that a media type declares.
pub open spec fn encoding_of(media_type: Seq<char>) -> Encoding {
    let base = media_base(media_type);
    if "+gzip"@.is_suffix_of(base) || ".gzip"@.is_suffix_of(base) || ".tar.gzip"@.is_suffix_of(
        base,
    ) {
        Encoding::Gzip
    } else if ".tar"@.is_suffix_of(base) || "+tar"@.is_suffix_of(base) || base
        == "application/x-tar"@ {
        Encoding::Plain
    } else if "+zstd"@.is_suffix_of(base) {
        Encoding::Zstd
    } else {
        Encoding::Unknown
    }
}

/// The encoding that a media type declares.
pub fn layer_encoding(media_type: &str) -> (r: Encoding)
    ensures
        r == encoding_of(media_type@),
{
    let parts: Vec<String> = split_all(media_type, ';');
    proof {
        crate::text::lemma_pieces(media_type@, ';');
        assert(crate::text::texts(parts@)[0] == parts@[0]@);
    }
    let base: &str = trim(parts[0].as_str());
    if ends_with(base, "+gzip") || ends_with(base, ".gzip") || ends_with(base, ".tar.gzip") {
        Encoding::Gzip
    } else if ends_with(base, ".tar") || ends_with(base, "+tar") || same_text(
        base,
        "application/x-tar",
    ) {
        Encoding::Plain
    } else if ends_with(base, "+zstd") {
        Encoding::Zstd
    } else {
        Encoding::Unknown
    }
}

// ---------------------------------------------------------------------
// Layers
// ---------------------------------------------------------------------
/// The plan of a gzip-compressed layer.
///
/// Whiteouts are honored against the existing contents of `dest`; the markers
/// themselves are never materialized.
pub fn apply_layer(dest: &UnixPath, layer: &Vec<u8>) -> (r: LayerPlan)
    ensures
        plan_for(r, dest@, tar_gz_listing(layer@).0, tar_gz_listing(layer@).1),
{
    let listing: Listing = list_tar_gz(layer);
    plan_entries(dest, &listing.paths, listing.fault)
}

/// The plan of an uncompressed layer.
pub fn apply_tar_stream(dest: &UnixPath, layer: &Vec<u8>) -> (r: LayerPlan)
    ensures
        plan_for(r, dest@, tar_listing(layer@).0, tar_listing(layer@).1),
{
    let listing: Listing = list_tar(layer);
    plan_entries(dest, &listing.paths, listing.fault)
}

/// Whether `plan` is the plan of a layer with the given media type and bytes.
pub open spec fn plans_layer(
    plan: LayerPlan,
    dest: Seq<u8>,
    media_type: Seq<char>,
    layer: Seq<u8>,
) -> bool {
    match encoding_of(media_type) {
        Encoding::Gzip => plan_for(plan, dest, tar_gz_listing(layer).0, tar_gz_listing(layer).1),
        Encoding::Plain => plan_for(plan, dest, tar_listing(layer).0, tar_listing(layer).1),
        Encoding::Zstd => plan.steps@.len() == 0 && (plan.fault matches Some(
            LayerError::UnsupportedZstd(m),
        ) && m@ == media_type),
        Encoding::Unknown => plan.steps@.len() == 0 && (plan.fault matches Some(
            LayerError::UnknownMediaType(m),
        ) && m@ == media_type),
    }
}

/// The plan of a layer, by its media type.
///
/// `tar` and `tar+gzip` layers have steps. Other encodings are rejected: common
/// registries still use gzip.
pub fn apply_layer_bytes(dest: &UnixPath, media_type: &str, layer: &Vec<u8>) -> (r: LayerPlan)
    ensures
        plans_layer(r, dest@, media_type@, layer@),
{
    match layer_encoding(media_type) {
        Encoding::Gzip => apply_layer(dest, layer),
        Encoding::Plain => apply_tar_stream(dest, layer),
        Encoding::Zstd => LayerPlan {
            steps: Vec::new(),
            fault: Some(LayerError::UnsupportedZstd(owned(media_type))),
        },
        Encoding::Unknown => LayerPlan {
            steps: Vec::new(),
            fault: Some(LayerError::UnknownMediaType(owned(media_type))),
        },
    }
}

// ---------------------------------------------------------------------
// Carrying a step out
// ---------------------------------------------------------------------
/// Whether `path` is in `keep` or on the way to a path there.
pub open spec fn leads_to(keep: Seq<Seq<u8>>, path: Seq<u8>) -> bool {
    exists|k: int|
        0 <= k < keep.len() && components(path).is_prefix_of(components(#[trigger] keep[k]))
}

/// Whether the steps `a` begin the steps `b`.
fn parts_begin(a: &Vec<Part<Vec<u8>>>, b: &Vec<Part<Vec<u8>>>) -> (r: bool)
    ensures
        r == part_views(a@).is_prefix_of(part_views(b@)),
{
    let ghost x = part_views(a@);
    let ghost y = part_views(b@);
    if a.len() > b.len() {
        return false;
    }
    let mut i: usize = 0;
    while i < a.len()
        invariant
            i <= a.len() <= b.len(),
            x == part_views(a@),
            y == part_views(b@),
            forall|j: int| 0 <= j < i ==> x[j] == y[j],
        decreases a.len() - i,
    {
        let same: bool = match (&a[i], &b[i]) {
            (Part::Root, Part::Root) => true,
            (Part::Current, Part::Current) => true,
            (Part::Parent, Part::Parent) => true,
            (Part::Name(m), Part::Name(n)) => same_bytes(m, n),
            _ => false,
        };
        assert(same == (x[i as int] == y[i as int]));
        if !same {
            assert(y.subrange(0, x.len() as int)[i as int] == y[i as int]);
            return false;
        }
        i = i + 1;
    }
    assert(x =~= y.subrange(0, x.len() as int));
    true
}

/// Whether clearing an opaque directory leaves `path`, which stands below it:
/// so it does where this layer has written `path` or something below it.
pub fn survives_clear(path: &UnixPath, keep: &Vec<UnixPath>) -> (r: bool)
    ensures
        r == leads_to(path_list(keep@), path@),
{
    let ghost kept = path_list(keep@);
    let steps: Vec<Part<Vec<u8>>> = path.components();
    let mut i: usize = 0;
    while i < keep.len()
        invariant
            i <= keep.len(),
            kept == path_list(keep@),
            part_views(steps@) == components(path@),
            forall|k: int|
                0 <= k < i ==> !components(path@).is_prefix_of(components(#[trigger] kept[k])),
        decreases keep.len() - i,
    {
        assert(kept[i as int] == keep@[i as int]@);
        if parts_begin(&steps, &keep[i].components()) {
            return true;
        }
        i = i + 1;
    }
    false
}

/// What stands at a path that is to be removed.
#[derive(Debug, Clone, Copy, PartialEq, Eq, Structural)]
pub enum Standing {
    /// Nothing.
    Missing,
    /// A directory.
    Directory,
    /// Anything else, a symbolic link to a directory too.
    Other,
}

/// How to remove a path.
#[derive(Debug, Clone, Copy, PartialEq, Eq, Structural)]
pub enum Removal {
    /// There is nothing to remove.
    Done,
    /// Remove the directory and what stands below it.
    RemoveTree,
    /// Remove the file.
    RemoveFile,
}

/// How to remove what stands at a path, whatever it is.
pub fn remove_any(standing: Standing) -> (r: Removal)
    ensures
        r == (match standing {
            Standing::Missing => Removal::Done,
            Standing::Directory => Removal::RemoveTree,
            Standing::Other => Removal::RemoveFile,
        }),
{
    match standing {
        Standing::Missing => Removal::Done,
        Standing::Directory => Removal::RemoveTree,
        Standing::Other => Removal::RemoveFile,
    }
}

// ---------------------------------------------------------------------
// Laws
// ---------------------------------------------------------------------
/// Writing out stays inside the tree: the path at which an entry is written is
/// `dest` followed by the entry's names, none of which leads up.
pub proof fn law_unpack_inside(dest: Seq<u8>, earlier: Seq<Seq<Seq<u8>>>, path: Seq<u8>)
    requires
        accepted_names(path) is Some,
        mark_of(accepted_names(path)->0) is Add,
    ensures
        step_of(dest, earlier, accepted_names(path)->0) matches Step::Unpack(_, at) && components(
            at,
        ) == components(dest) + name_parts(accepted_names(path)->0) && plain_names(
            accepted_names(path)->0,
        ),
{
    law_accepted_names_plain(path);
    lemma_components_of_join(dest, accepted_names(path)->0);
}

proof fn lemma_dir_components(dest: Seq<u8>, dir: Seq<Seq<u8>>)
    requires
        plain_names(dir),
    ensures
        components(join_path(dest, joined(dir, SLASH))) == components(dest) + name_parts(dir),
{
    if dir.len() == 0 {
        assert(joined(dir, SLASH) =~= Seq::<u8>::empty());
        lemma_components_of_join_empty(dest);
        assert(components(dest) + name_parts(dir) =~= components(dest));
    } else {
        lemma_components_of_join(dest, dir);
    }
}

/// Clearing stays inside the tree: the directory that a marker clears is
/// `dest` followed by the names of the directory that holds the marker.
pub proof fn law_clear_inside(dest: Seq<u8>, earlier: Seq<Seq<Seq<u8>>>, path: Seq<u8>)
    requires
        accepted_names(path) is Some,
        mark_of(accepted_names(path)->0) is Opaque,
    ensures
        step_of(dest, earlier, accepted_names(path)->0) matches Step::Clear(at, _) && components(at)
            == components(dest) + name_parts((accepted_names(path)->0).drop_last()) && plain_names(
            (accepted_names(path)->0).drop_last(),
        ),
{
    law_accepted_names_plain(path);
    let names = accepted_names(path)->0;
    let dir = names.drop_last();
    assert forall|i: int| 0 <= i < dir.len() implies plain_name(#[trigger] dir[i]) by {
        assert(dir[i] == names[i]);
    }
    lemma_dir_components(dest, dir);
}

/// The names of what a marker in the directory `dir` deletes. A marker that
/// names nothing, or `.`, deletes the directory that holds it.
pub open spec fn deleted(dir: Seq<Seq<u8>>, target: Seq<u8>) -> Seq<Seq<u8>> {
    if plain_name(target) {
        dir.push(target)
    } else {
        dir
    }
}

/// Whether `path` leads from `dest` through the given names and nothing else.
/// The empty path and `.` lead to the same directory.
pub open spec fn leads_by(dest: Seq<u8>, names: Seq<Seq<u8>>, path: Seq<u8>) -> bool {
    components(path) == components(dest) + name_parts(names) || (dest.len() == 0 && names.len()
        == 0 && path == seq![DOT])
}

/// A deletion stays inside the tree: what goes is reached from `dest` through
/// the names of the directory that holds the marker and the name that it
/// deletes.
pub proof fn law_whiteout_inside(dest: Seq<u8>, earlier: Seq<Seq<Seq<u8>>>, path: Seq<u8>)
    requires
        accepted_names(path) is Some,
        mark_of(accepted_names(path)->0) is Whiteout,
    ensures
        mark_of(accepted_names(path)->0) matches Mark::Whiteout(dir, target) && (step_of(
            dest,
            earlier,
            accepted_names(path)->0,
        ) matches Step::Remove(at) && leads_by(dest, deleted(dir, target), at)) && plain_names(
            deleted(dir, target),
        ),
{
    law_accepted_names_plain(path);
    let names = accepted_names(path)->0;
    let dir = names.drop_last();
    let name = names.last();
    let target = mark_of(names)->Whiteout_1;
    assert forall|i: int| 0 <= i < dir.len() implies plain_name(#[trigger] dir[i]) by {
        assert(dir[i] == names[i]);
    }
    lemma_dir_components(dest, dir);
    let base = join_path(dest, joined(dir, SLASH));
    if plain_name(target) {
        let one = seq![target];
        assert(plain_names(one));
        assert(joined(one, SLASH) == target);
        lemma_components_of_join(base, one);
        assert(components(dest) + name_parts(dir) + name_parts(one) =~= components(dest)
            + name_parts(dir.push(target)));
        assert forall|i: int| 0 <= i < dir.push(target).len() implies plain_name(
            #[trigger] dir.push(target)[i],
        ) by {
            if i < dir.len() {
                assert(dir.push(target)[i] == dir[i]);
            }
        }
    } else {
        assert(plain_name(names[names.len() - 1]));
        assert(!target.contains(SLASH)) by {
            if target.contains(SLASH) {
                let k = choose|k: int| 0 <= k < target.len() && target[k] == SLASH;
                assert(name[encode_utf8(WHITEOUT_PREFIX@).len() + k] == SLASH);
                assert(name.contains(SLASH));
            }
        }
        if target.len() == 0 {
            assert(target =~= Seq::<u8>::empty());
            lemma_components_of_join_empty(base);
        } else if base.len() > 0 {
            lemma_components_of_join_dot(base);
        } else {
            assert(dest.len() == 0);
            assert(dir.len() == 0) by {
                if dir.len() > 0 {
                    assert(name_parts(dir).len() > 0);
                    assert(components(base).len() > 0);
                    lemma_components_of_join_empty(base);
                    assert(base =~= Seq::<u8>::empty());
                    assert(components(base).len() == 0) by {
                        reveal_with_fuel(crate::path::parts_of, 2);
                        assert(pieces(base, SLASH) =~= seq![Seq::<u8>::empty()]);
                        assert(seq![Seq::<u8>::empty()].drop_last() =~= Seq::<Seq<u8>>::empty());
                    }
                }
            }
            assert(join_path(base, target) =~= target);
        }
    }
}

/// Whether `path` leads from `dest` through names alone.
pub open spec fn inside(dest: Seq<u8>, path: Seq<u8>) -> bool {
    exists|names: Seq<Seq<u8>>| #[trigger] plain_names(names) && leads_by(dest, names, path)
}

/// A layer changes nothing outside its tree: whatever a step of a plan clears,
/// removes or writes lies inside `dest`.
pub proof fn law_plan_inside(dest: Seq<u8>, paths: Seq<Seq<u8>>, i: int)
    requires
        0 <= i < paths.len(),
        accepted_names(paths[i]) is Some,
    ensures
        match steps_of(dest, paths)[i] {
            Step::Skip => true,
            Step::Clear(at, _) => inside(dest, at),
            Step::Remove(at) => inside(dest, at),
            Step::Unpack(_, at) => inside(dest, at),
        },
{
    let names = accepted_names(paths[i])->0;
    let earlier = all_names(paths).take(i);
    assert(all_names(paths)[i] == names);
    match mark_of(names) {
        Mark::Skip => {},
        Mark::Opaque(dir) => {
            law_clear_inside(dest, earlier, paths[i]);
            assert(plain_names(dir));
        },
        Mark::Whiteout(dir, target) => {
            law_whiteout_inside(dest, earlier, paths[i]);
            assert(plain_names(deleted(dir, target)));
        },
        Mark::Add(all) => {
            law_unpack_inside(dest, earlier, paths[i]);
            assert(plain_names(all));
        },
    }
}

/// Markers are never materialized: an entry that is written out has a name
/// that does not begin as a marker does.
pub proof fn law_markers_not_written(names: Seq<Seq<u8>>)
    requires
        mark_of(names) is Add,
    ensures
        mark_of(names) == Mark::Add(names),
        !encode_utf8(WHITEOUT_PREFIX@).is_prefix_of(names.last()),
        names.last() != encode_utf8(OPAQUE_MARKER@),
{
}

/// Whether the path `p` stands below the directory `dir`.
pub open spec fn below(dir: Seq<Seq<u8>>, p: Seq<Seq<u8>>) -> bool {
    dir.is_prefix_of(p) && dir != p
}

/// Whether `p` is one of `list` or a directory on the way to one.
pub open spec fn on_way(list: Seq<Seq<Seq<u8>>>, p: Seq<Seq<u8>>) -> bool {
    exists|k: int| 0 <= k < list.len() && p.is_prefix_of(#[trigger] list[k])
}

/// Whether the entry with the given names, applied after the entries
/// `earlier` of its layer to a tree in which `p` stands or does not stand,
/// leaves `p` standing. A path is the list of its names; the entry is an
/// accepted one, and its step is carried out.
pub open spec fn stands_after_entry(
    stood: bool,
    earlier: Seq<Seq<Seq<u8>>>,
    names: Seq<Seq<u8>>,
    p: Seq<Seq<u8>>,
) -> bool {
    match mark_of(names) {
        Mark::Skip => stood,
        Mark::Opaque(dir) => stood && !(below(dir, p) && !on_way(added(earlier), p)),
        Mark::Whiteout(dir, target) => stood && !deleted(dir, target).is_prefix_of(p),
        Mark::Add(all) => stood || p.is_prefix_of(all),
    }
}

/// Whether `p` stands in the tree after the entries of a layer were applied
/// in order.
pub open spec fn stands_after(
    stood: bool,
    entries: Seq<Seq<Seq<u8>>>,
    p: Seq<Seq<u8>>,
) -> bool
    decreases entries.len(),
{
    if entries.len() == 0 {
        stood
    } else {
        stands_after_entry(
            stands_after(stood, entries.drop_last(), p),
            entries.drop_last(),
            entries.last(),
            p,
        )
    }
}

/// Whether a marker among `entries` makes a directory above `p` opaque.
pub open spec fn under_opaque(entries: Seq<Seq<Seq<u8>>>, p: Seq<Seq<u8>>) -> bool {
    exists|i: int|
        0 <= i < entries.len() && (mark_of(#[trigger] entries[i]) matches Mark::Opaque(dir)
            && below(dir, p))
}

/// Deletion: after an entry `.wh.<name>`, neither `<name>` in that directory
/// nor anything below it stands, and every other path stands as before. After
/// one that names nothing, or `.`, the same holds of the directory itself.
pub proof fn law_whiteout_deletes(
    stood: bool,
    earlier: Seq<Seq<Seq<u8>>>,
    names: Seq<Seq<u8>>,
    p: Seq<Seq<u8>>,
)
    requires
        mark_of(names) is Whiteout,
        !strays(names),
    ensures
        mark_of(names) matches Mark::Whiteout(dir, target) && stands_after_entry(
            stood,
            earlier,
            names,
            p,
        ) == (stood && !deleted(dir, target).is_prefix_of(p)),
{
}

/// Opaque directories: where a layer deletes nothing by name, what stands
/// after it is what stood before and is not below a directory that the layer
/// makes opaque, together with what the layer adds, in whatever order markers
/// and additions stand in it.
pub proof fn law_opaque_before_additions(
    stood: bool,
    entries: Seq<Seq<Seq<u8>>>,
    p: Seq<Seq<u8>>,
)
    requires
        forall|i: int| 0 <= i < entries.len() ==> !(mark_of(#[trigger] entries[i]) is Whiteout),
    ensures
        stands_after(stood, entries, p) == ((stood && !under_opaque(entries, p)) || on_way(
            added(entries),
            p,
        )),
    decreases entries.len(),
{
    if entries.len() > 0 {
        let front = entries.drop_last();
        assert forall|i: int| 0 <= i < front.len() implies !(mark_of(
            #[trigger] front[i],
        ) is Whiteout) by {
            assert(front[i] == entries[i]);
        }
        law_opaque_before_additions(stood, front, p);
        let n = entries.len() - 1;
        assert(entries[n] == entries.last());
        if under_opaque(front, p) {
            let i = choose|i: int|
                0 <= i < front.len() && (mark_of(#[trigger] front[i]) matches Mark::Opaque(dir)
                    && below(dir, p));
            assert(mark_of(entries[i]) == mark_of(front[i]));
        }
        if under_opaque(entries, p) {
            let i = choose|i: int|
                0 <= i < entries.len() && (mark_of(#[trigger] entries[i]) matches Mark::Opaque(dir)
                    && below(dir, p));
            if i < n {
                assert(mark_of(front[i]) == mark_of(entries[i]));
            }
        }
        match mark_of(entries.last()) {
            Mark::Add(all) => {
                assert(added(entries) == added(front).push(all));
                assert(added(entries)[added(front).len() as int] == all);
                if on_way(added(front), p) {
                    let k = choose|k: int|
                        0 <= k < added(front).len() && p.is_prefix_of(#[trigger] added(front)[k]);
                    assert(added(entries)[k] == added(front)[k]);
                }
                if on_way(added(entries), p) {
                    let k = choose|k: int|
                        0 <= k < added(entries).len() && p.is_prefix_of(
                            #[trigger] added(entries)[k],
                        );
                    if k < added(front).len() {
                        assert(added(front)[k] == added(entries)[k]);
                    }
                }
            },
            _ => {},
        }
    }
}

proof fn lemma_prefix_of_placed(dest: Seq<u8>, p: Seq<Seq<u8>>, q: Seq<Seq<u8>>)
    requires
        p.len() > 0,
        plain_names(p),
        q.len() > 0,
        plain_names(q),
    ensures
        components(join_path(dest, joined(p, SLASH))).is_prefix_of(
            components(join_path(dest, joined(q, SLASH))),
        ) == p.is_prefix_of(q),
{
    lemma_components_of_join(dest, p);
    lemma_components_of_join(dest, q);
    let c = components(dest);
    let x = c + name_parts(p);
    let y = c + name_parts(q);
    if x.is_prefix_of(y) {
        assert forall|i: int| 0 <= i < p.len() implies p[i] == q[i] by {
            assert(x[c.len() + i] == Part::Name(p[i]));
            assert(y.subrange(0, x.len() as int)[c.len() + i] == y[c.len() + i]);
            assert(y[c.len() + i] == Part::Name(q[i]));
        }
        assert(p =~= q.subrange(0, p.len() as int));
    }
    if p.is_prefix_of(q) {
        assert forall|i: int| 0 <= i < x.len() implies x[i] == y[i] by {
            if i >= c.len() {
                assert(q.subrange(0, p.len() as int)[i - c.len()] == q[i - c.len()]);
            }
        }
        assert(x =~= y.subrange(0, x.len() as int));
    }
}

/// What clearing leaves: of the paths below `dest`, those that the layer wrote
/// before the marker, and the directories on the way to them.
pub proof fn law_clear_keeps_additions(
    dest: Seq<u8>,
    list: Seq<Seq<Seq<u8>>>,
    p: Seq<Seq<u8>>,
)
    requires
        p.len() > 0,
        plain_names(p),
        forall|k: int|
            0 <= k < list.len() ==> (#[trigger] list[k]).len() > 0 && plain_names(list[k]),
    ensures
        leads_to(placed(dest, list), join_path(dest, joined(p, SLASH))) == on_way(list, p),
{
    let path = join_path(dest, joined(p, SLASH));
    let keep = placed(dest, list);
    if leads_to(keep, path) {
        let k = choose|k: int|
            0 <= k < keep.len() && components(path).is_prefix_of(components(#[trigger] keep[k]));
        assert(plain_names(list[k]));
        lemma_prefix_of_placed(dest, p, list[k]);
        assert(p.is_prefix_of(list[k]));
    }
    if on_way(list, p) {
        let k = choose|k: int| 0 <= k < list.len() && p.is_prefix_of(#[trigger] list[k]);
        assert(plain_names(list[k]));
        lemma_prefix_of_placed(dest, p, list[k]);
        assert(components(path).is_prefix_of(components(keep[k])));
    }
}

/// Whether a path is relative and leads through the given names and nothing
/// else, with or without a `.` in front.
pub open spec fn leads_through(path: Seq<u8>, names: Seq<Seq<u8>>) -> bool {
    components(path) == name_parts(names) || components(path) == seq![Part::<Seq<u8>>::Current]
        + name_parts(names)
}

/// Whether a path leads to the root or to a parent directory on its way.
pub open spec fn escapes(path: Seq<u8>) -> bool {
    exists|i: int|
        0 <= i < components(path).len() && (#[trigger] components(path)[i] is Root || components(
            path,
        )[i] is Parent)
}

proof fn lemma_names_of_names(names: Seq<Seq<u8>>)
    ensures
        names_of(name_parts(names)) == Some(names),
        names_of(seq![Part::<Seq<u8>>::Current] + name_parts(names)) == Some(names),
    decreases names.len(),
{
    let parts = name_parts(names);
    let dotted = seq![Part::<Seq<u8>>::Current] + parts;
    if names.len() == 0 {
        assert(names =~= Seq::<Seq<u8>>::empty());
        assert(dotted.drop_last() =~= Seq::<Part<Seq<u8>>>::empty());
        reveal_with_fuel(names_of, 2);
    } else {
        let front = names.drop_last();
        lemma_names_of_names(front);
        assert(parts.drop_last() =~= name_parts(front));
        assert(dotted.drop_last() =~= seq![Part::<Seq<u8>>::Current] + name_parts(front));
        assert(front.push(names.last()) =~= names);
        assert(dotted.last() == Part::Name(names.last()));
    }
}

proof fn lemma_names_of_none(parts: Seq<Part<Seq<u8>>>)
    ensures
        names_of(parts) is None <==> exists|i: int|
            0 <= i < parts.len() && (#[trigger] parts[i] is Root || parts[i] is Parent),
    decreases parts.len(),
{
    if parts.len() > 0 {
        let front = parts.drop_last();
        lemma_names_of_none(front);
        assert(parts[parts.len() - 1] == parts.last());
        if names_of(front) is None {
            let i = choose|i: int|
                0 <= i < front.len() && (#[trigger] front[i] is Root || front[i] is Parent);
            assert(parts[i] == front[i]);
        } else if exists|i: int|
            0 <= i < parts.len() && (#[trigger] parts[i] is Root || parts[i] is Parent) {
            let i = choose|i: int|
                0 <= i < parts.len() && (#[trigger] parts[i] is Root || parts[i] is Parent);
            if i < front.len() {
                assert(front[i] == parts[i]);
            }
        }
    }
}

/// Which entries are refused: those whose path is empty, absolute or leads to a
/// parent directory, and those that mark the deletion of `..`; no other.
pub proof fn law_refused_entries(path: Seq<u8>)
    ensures
        components(path).len() == 0 ==> accepted_names(path) is None,
        escapes(path) ==> accepted_names(path) is None,
        forall|names: Seq<Seq<u8>>| #[trigger]
            leads_through(path, names) && components(path).len() > 0 ==> (accepted_names(path)
                is None <==> names.len() > 0 && names.last() == encode_utf8(".wh..."@)),
        forall|names: Seq<Seq<u8>>| #[trigger]
            leads_through(path, names) && accepted_names(path) is Some ==> accepted_names(path)
                == Some(names),
{
    lemma_names_of_none(components(path));
    lemma_marker_bytes();
    assert forall|names: Seq<Seq<u8>>| #[trigger] leads_through(path, names) implies (
    components(path).len() > 0 ==> (accepted_names(path) is None <==> names.len() > 0
        && names.last() == encode_utf8(".wh..."@))) && (accepted_names(path) is Some
        ==> accepted_names(path) == Some(names)) by {
        lemma_names_of_names(names);
        let name = names.last();
        let prefix = encode_utf8(".wh."@);
        if names.len() > 0 {
            if name == encode_utf8(".wh..."@) {
                assert(prefix =~= name.subrange(0, 4));
                assert(name.skip(4) =~= seq![DOT, DOT]);
            }
            if prefix.is_prefix_of(name) && name.skip(4) == seq![DOT, DOT] {
                assert(name =~= name.subrange(0, 4) + name.skip(4));
                assert(name =~= encode_utf8(".wh..."@));
            }
        }
    }
}

proof fn lemma_marker_bytes()
    ensures
        encode_utf8(".wh."@) == seq![0x2eu8, 0x77u8, 0x68u8, 0x2eu8],
        encode_utf8(".wh..."@) == seq![0x2eu8, 0x77u8, 0x68u8, 0x2eu8, 0x2eu8, 0x2eu8],
        encode_utf8(".wh..wh..opq"@) == seq![
            0x2eu8,
            0x77u8,
            0x68u8,
            0x2eu8,
            0x2eu8,
            0x77u8,
            0x68u8,
            0x2eu8,
            0x2eu8,
            0x6fu8,
            0x70u8,
            0x71u8,
        ],
        valid_utf8(encode_utf8(".wh..."@)),
{
    reveal_strlit(".wh.");
    reveal_strlit(".wh...");
    reveal_strlit(".wh..wh..opq");
    lemma_ascii_bytes(".wh."@);
    lemma_ascii_bytes(".wh..."@);
    lemma_ascii_bytes(".wh..wh..opq"@);
    assert(encode_utf8(".wh."@) =~= seq![0x2eu8, 0x77u8, 0x68u8, 0x2eu8]);
    assert(encode_utf8(".wh..."@) =~= seq![0x2eu8, 0x77u8, 0x68u8, 0x2eu8, 0x2eu8, 0x2eu8]);
    assert(encode_utf8(".wh..wh..opq"@) =~= seq![
        0x2eu8,
        0x77u8,
        0x68u8,
        0x2eu8,
        0x2eu8,
        0x77u8,
        0x68u8,
        0x2eu8,
        0x2eu8,
        0x6fu8,
        0x70u8,
        0x71u8,
    ]);
}

/// What an entry asks for follows from its last name alone, and nothing is lost:
/// only the top of the tree and a name that is not UTF-8 are passed over,
/// `.wh..wh..opq` makes its directory opaque, every other name with `.wh.` in
/// front deletes what follows that prefix, and every name besides is written
/// out, hidden files too.
pub proof fn law_nothing_is_lost(names: Seq<Seq<u8>>)
    ensures
        mark_of(names) is Skip <==> names.len() == 0 || !valid_utf8(names.last()),
        names.len() > 0 && valid_utf8(names.last()) ==> {
            let name = names.last();
            let dir = names.drop_last();
            &&& !encode_utf8(".wh."@).is_prefix_of(name) ==> mark_of(names) == Mark::Add(names)
            &&& name == encode_utf8(".wh..wh..opq"@) ==> mark_of(names) == Mark::Opaque(dir)
            &&& forall|target: Seq<u8>|
                name == #[trigger] (encode_utf8(".wh."@) + target) && name != encode_utf8(
                    ".wh..wh..opq"@,
                ) ==> mark_of(names) == Mark::Whiteout(dir, target)
        },
{
    lemma_marker_bytes();
    let name = names.last();
    let prefix = encode_utf8(".wh."@);
    if name == encode_utf8(".wh..wh..opq"@) {
        assert(prefix =~= name.subrange(0, 4));
    }
    assert forall|target: Seq<u8>|
        names.len() > 0 && valid_utf8(name) && name == #[trigger] (prefix + target) && name
            != encode_utf8(".wh..wh..opq"@) implies mark_of(names) == Mark::Whiteout(
        names.drop_last(),
        target,
    ) by {
        assert(prefix =~= name.subrange(0, 4));
        assert(name.skip(4) =~= target);
    }
}

proof fn lemma_added(dest: Seq<u8>, entries: Seq<Seq<Seq<u8>>>, at: Seq<u8>)
    ensures
        placed(dest, added(entries)).contains(at) <==> exists|j: int|
            0 <= j < entries.len() && mark_of(#[trigger] entries[j]) is Add && at == join_path(
                dest,
                joined(mark_of(entries[j])->Add_0, SLASH),
            ),
    decreases entries.len(),
{
    if entries.len() == 0 {
        assert(added(entries).len() == 0);
    } else {
        let front = entries.drop_last();
        let n = entries.len() - 1;
        lemma_added(dest, front, at);
        let before = placed(dest, added(front));
        let all = placed(dest, added(entries));
        assert(entries[n] == entries.last());
        if before.contains(at) {
            let j = choose|j: int|
                0 <= j < front.len() && mark_of(#[trigger] front[j]) is Add && at == join_path(
                    dest,
                    joined(mark_of(front[j])->Add_0, SLASH),
                );
            assert(entries[j] == front[j]);
        }
        match mark_of(entries.last()) {
            Mark::Add(names) => {
                let mine = join_path(dest, joined(names, SLASH));
                assert(all =~= before.push(mine));
                assert(all[before.len() as int] == mine);
                if before.contains(at) {
                    let k = choose|k: int| 0 <= k < before.len() && before[k] == at;
                    assert(all[k] == at);
                }
                if all.contains(at) {
                    let k = choose|k: int| 0 <= k < all.len() && all[k] == at;
                    if k < before.len() {
                        assert(before[k] == at);
                    }
                }
            },
            _ => {
                assert(all == before);
            },
        }
        if exists|j: int|
            0 <= j < entries.len() && mark_of(#[trigger] entries[j]) is Add && at == join_path(
                dest,
                joined(mark_of(entries[j])->Add_0, SLASH),
            ) {
            let j = choose|j: int|
                0 <= j < entries.len() && mark_of(#[trigger] entries[j]) is Add && at == join_path(
                    dest,
                    joined(mark_of(entries[j])->Add_0, SLASH),
                );
            if j < n {
                assert(front[j] == entries[j]);
            }
        }
    }
}

/// Whether a step writes out at a path.
pub open spec fn unpacks(step: Step, at: Seq<u8>) -> bool {
    step matches Step::Unpack(_, path) && path == at
}

/// Whether `step` is what the entry at a path that leads through `names` comes
/// to in the tree at `dest`: a plain entry is written out under its own names
/// with its parent directory, an opaque marker clears the directory that holds
/// it, and a deletion removes the name behind its prefix in that directory.
pub open spec fn does_its_work(dest: Seq<u8>, names: Seq<Seq<u8>>, step: Step) -> bool {
    let name = names.last();
    let dir = components(dest) + name_parts(names.drop_last());
    if names.len() == 0 || !valid_utf8(name) {
        step is Skip
    } else if name == encode_utf8(".wh..wh..opq"@) {
        step matches Step::Clear(at, _) && components(at) == dir
    } else if encode_utf8(".wh."@).is_prefix_of(name) {
        step matches Step::Remove(at) && (if plain_name(name.skip(4)) {
            components(at) == dir.push(Part::Name(name.skip(4)))
        } else {
            leads_by(dest, names.drop_last(), at)
        })
    } else {
        step matches Step::Unpack(parent, at) && components(at) == dir.push(Part::Name(name))
            && (parent matches Some(up) && components(up) == dir)
    }
}

/// A layer is applied entry by entry, in the order of the archive: there is one
/// step for each entry up to the first that is refused, each does its entry's
/// work in the tree, and what an opaque marker spares is exactly what the same
/// layer wrote out before it. The plan ends with the refused path, or with what
/// ended the archive.
pub proof fn law_plan_follows_the_archive(
    plan: LayerPlan,
    dest: Seq<u8>,
    paths: Seq<Seq<u8>>,
    end: Option<Seq<char>>,
)
    requires
        plan_for(plan, dest, paths, end),
    ensures
        plan.steps@.len() <= paths.len(),
        forall|i: int|
            0 <= i < plan.steps@.len() ==> accepted_names(#[trigger] paths[i]) is Some
                && forall|names: Seq<Seq<u8>>| #[trigger]
                leads_through(paths[i], names) ==> does_its_work(dest, names, plan.steps@[i]@),
        forall|i: int|
            0 <= i < plan.steps@.len() ==> (#[trigger] plan.steps@[i]@ matches Step::Clear(_, keep)
                ==> forall|at: Seq<u8>| #[trigger]
                keep.contains(at) <==> exists|j: int|
                    0 <= j < i && #[trigger] unpacks(plan.steps@[j]@, at)),
        plan.steps@.len() < paths.len() ==> accepted_names(paths[plan.steps@.len() as int]) is None
            && (plan.fault matches Some(LayerError::UnsafePath(text)) && text@ == lossy_text(
            paths[plan.steps@.len() as int],
        )),
        plan.steps@.len() == paths.len() ==> match end {
            Some(text) => plan.fault matches Some(LayerError::Archive(t)) && t@ == text,
            None => plan.fault is None,
        },
{
    let n = safe_count(paths);
    lemma_safe_count(paths);
    let some = paths.take(n);
    let views = step_views(plan.steps@);
    let names_list = all_names(some);
    assert(views.len() == n);
    assert(plan.steps@.len() == n);
    assert forall|i: int| 0 <= i < n implies accepted_names(#[trigger] paths[i]) is Some && forall|
        names: Seq<Seq<u8>>,
    | #[trigger]
        leads_through(paths[i], names) ==> does_its_work(dest, names, plan.steps@[i]@) by {
        assert(some[i] == paths[i]);
        assert(views[i] == plan.steps@[i]@);
        assert(views[i] == step_of(dest, names_list.take(i), names_list[i]));
        law_refused_entries(paths[i]);
        assert forall|names: Seq<Seq<u8>>| #[trigger] leads_through(paths[i], names) implies
            does_its_work(dest, names, plan.steps@[i]@) by {
            assert(accepted_names(paths[i]) == Some(names));
            lemma_step_does_its_work(dest, names_list.take(i), paths[i]);
        }
    }
    assert forall|i: int| 0 <= i < n implies (#[trigger] plan.steps@[i]@ matches Step::Clear(
        _,
        keep,
    ) ==> forall|at: Seq<u8>| #[trigger]
        keep.contains(at) <==> exists|j: int|
            0 <= j < i && #[trigger] unpacks(plan.steps@[j]@, at)) by {
        assert(views[i] == plan.steps@[i]@);
        assert(views[i] == step_of(dest, names_list.take(i), names_list[i]));
        match plan.steps@[i]@ {
            Step::Clear(_, keep) => {
                let earlier = names_list.take(i);
                assert(keep == placed(dest, added(earlier)));
                assert forall|at: Seq<u8>| #[trigger] keep.contains(at) <==> exists|j: int|
                    0 <= j < i && #[trigger] unpacks(plan.steps@[j]@, at) by {
                    lemma_added(dest, earlier, at);
                    if keep.contains(at) {
                        let j = choose|j: int|
                            0 <= j < earlier.len() && mark_of(#[trigger] earlier[j]) is Add && at
                                == join_path(dest, joined(mark_of(earlier[j])->Add_0, SLASH));
                        assert(views[j] == plan.steps@[j]@);
                        assert(views[j] == step_of(dest, names_list.take(j), names_list[j]));
                        assert(unpacks(plan.steps@[j]@, at));
                    }
                    if exists|j: int| 0 <= j < i && #[trigger] unpacks(plan.steps@[j]@, at) {
                        let j = choose|j: int|
                            0 <= j < i && #[trigger] unpacks(plan.steps@[j]@, at);
                        assert(views[j] == plan.steps@[j]@);
                        assert(views[j] == step_of(dest, names_list.take(j), names_list[j]));
                        assert(earlier[j] == names_list[j]);
                    }
                }
            },
            _ => {},
        }
    }
}

proof fn lemma_safe_count(paths: Seq<Seq<u8>>)
    ensures
        0 <= safe_count(paths) <= paths.len(),
        forall|i: int|
            0 <= i < safe_count(paths) ==> accepted_names(#[trigger] paths[i]) is Some,
        safe_count(paths) < paths.len() ==> accepted_names(paths[safe_count(paths)]) is None,
    decreases paths.len(),
{
    if paths.len() > 0 {
        let front = paths.drop_last();
        lemma_safe_count(front);
        let n = safe_count(paths);
        assert forall|i: int| 0 <= i < n implies accepted_names(#[trigger] paths[i]) is Some by {
            if i < front.len() {
                assert(front[i] == paths[i]);
            }
        }
        if n < paths.len() && n < front.len() {
            assert(front[n] == paths[n]);
        }
    }
}

proof fn lemma_step_does_its_work(dest: Seq<u8>, earlier: Seq<Seq<Seq<u8>>>, path: Seq<u8>)
    requires
        accepted_names(path) is Some,
    ensures
        does_its_work(dest, accepted_names(path)->0, step_of(dest, earlier, accepted_names(path)->0)),
{
    let names = accepted_names(path)->0;
    lemma_marker_bytes();
    law_accepted_names_plain(path);
    let dir = names.drop_last();
    let base = components(dest) + name_parts(dir);
    if names.len() > 0 {
        assert(name_parts(names) =~= name_parts(dir).push(Part::Name(names.last())));
        assert(components(dest) + name_parts(names) =~= base.push(Part::Name(names.last())));
    }
    match mark_of(names) {
        Mark::Skip => {},
        Mark::Opaque(_) => {
            law_clear_inside(dest, earlier, path);
        },
        Mark::Whiteout(_, target) => {
            law_whiteout_inside(dest, earlier, path);
            if plain_name(target) {
                assert(name_parts(dir.push(target)) =~= name_parts(dir).push(Part::Name(target)));
                assert(components(dest) + name_parts(dir.push(target)) =~= base.push(
                    Part::Name(target),
                ));
            }
        },
        Mark::Add(all) => {
            law_unpack_inside(dest, earlier, path);
            let at = join_path(dest, joined(all, SLASH));
            law_parent_drops_last_step(at);
            assert(components(at).drop_last() =~= base);
        },
    }
}

proof fn lemma_trimmed_keeps_end(s: Seq<char>, end: Seq<char>)
    requires
        end.len() > 0,
        end.is_suffix_of(s),
        !crate::text::white_space(end[0]),
        !crate::text::white_space(end.last()),
    ensures
        end.is_suffix_of(trimmed(s)),
    decreases s.len(),
{
    assert(s.last() == end.last()) by {
        assert(s.subrange(s.len() - end.len(), s.len() as int).last() == s.last());
    }
    if crate::text::white_space(s[0]) {
        assert(s.len() > end.len()) by {
            if s.len() == end.len() {
                assert(s.subrange(0, s.len() as int)[0] == s[0]);
            }
        }
        let t = s.skip(1);
        assert(t.subrange(t.len() - end.len(), t.len() as int) =~= s.subrange(
            s.len() - end.len(),
            s.len() as int,
        ));
        lemma_trimmed_keeps_end(t, end);
    }
}

/// The end of a media type says how a layer is encoded, and what follows a
/// semicolon has no say: `+gzip` and `.gzip` are compressed, `.tar`, `+tar` and
/// `application/x-tar` are not, `+zstd` is not supported.
pub proof fn law_media_types(front: Seq<char>, parameters: Seq<char>)
    requires
        !front.contains(';'),
    ensures
        encoding_of(front + "+gzip"@) is Gzip,
        encoding_of(front + ".gzip"@) is Gzip,
        encoding_of(front + ".tar"@) is Plain,
        encoding_of(front + "+tar"@) is Plain,
        encoding_of(front + "+zstd"@) is Zstd,
        encoding_of(front + ";"@ + parameters) == encoding_of(front),
        encoding_of("application/x-tar"@) is Plain,
{
    reveal_strlit("+gzip");
    reveal_strlit(".gzip");
    reveal_strlit(".tar.gzip");
    reveal_strlit(".tar");
    reveal_strlit("+tar");
    reveal_strlit("+zstd");
    reveal_strlit(";");
    reveal_strlit("application/x-tar");
    lemma_encoding_by_end(front, "+gzip"@);
    lemma_encoding_by_end(front, ".gzip"@);
    lemma_encoding_by_end(front, ".tar"@);
    lemma_encoding_by_end(front, "+tar"@);
    lemma_encoding_by_end(front, "+zstd"@);
    let s = "application/x-tar"@;
    assert(!s.contains(';'));
    crate::text::lemma_pieces_without(s, ';');
    lemma_trimmed_keeps_end(s, s);
    assert(s.subrange(0, s.len() as int) =~= s);
    lemma_trimmed_shorter(s);
    assert(trimmed(s) =~= s) by {
        assert(trimmed(s).subrange(trimmed(s).len() - s.len(), trimmed(s).len() as int) == s);
    }
    assert(encoding_of(s) is Plain) by {
        assert(s.last() == 'r');
        if "+gzip"@.is_suffix_of(s) {
            lemma_suffix_last(s, "+gzip"@);
        }
        if ".gzip"@.is_suffix_of(s) {
            lemma_suffix_last(s, ".gzip"@);
        }
        if ".tar.gzip"@.is_suffix_of(s) {
            lemma_suffix_last(s, ".tar.gzip"@);
        }
    }
    assert(front + ";"@ + parameters =~= front.push(';') + parameters);
    crate::text::lemma_pieces_of_concat(front, ';', parameters);
    crate::text::lemma_pieces_without(front, ';');
    assert((pieces(front, ';') + pieces(parameters, ';'))[0] == front);
}

proof fn lemma_trimmed_shorter(s: Seq<char>)
    ensures
        trimmed(s).len() <= s.len(),
    decreases s.len(),
{
    lemma_trimmed_start_shorter(s);
    lemma_trimmed_end_shorter(crate::text::trimmed_start(s));
}

proof fn lemma_trimmed_start_shorter(s: Seq<char>)
    ensures
        crate::text::trimmed_start(s).len() <= s.len(),
    decreases s.len(),
{
    if s.len() > 0 {
        lemma_trimmed_start_shorter(s.skip(1));
    }
}

proof fn lemma_trimmed_end_shorter(s: Seq<char>)
    ensures
        crate::text::trimmed_end(s).len() <= s.len(),
    decreases s.len(),
{
    if s.len() > 0 {
        lemma_trimmed_end_shorter(s.drop_last());
    }
}

proof fn lemma_suffix_last(s: Seq<char>, end: Seq<char>)
    requires
        end.len() > 0,
        end.is_suffix_of(s),
    ensures
        s.len() > 0,
        s.last() == end.last(),
{
    assert(s.subrange(s.len() - end.len(), s.len() as int).last() == s.last());
}

proof fn lemma_encoding_by_end(front: Seq<char>, end: Seq<char>)
    requires
        !front.contains(';'),
        end.len() > 0,
        !end.contains(';'),
        !crate::text::white_space(end[0]),
        !crate::text::white_space(end.last()),
    ensures
        end.is_suffix_of(media_base(front + end)),
        media_base(front + end).last() == end.last(),
        forall|other: Seq<char>|
            #![trigger other.is_suffix_of(media_base(front + end))]
            other.len() > 0 && other.last() != end.last() ==> !other.is_suffix_of(
                media_base(front + end),
            ),
        forall|other: Seq<char>|
            #![trigger other.is_suffix_of(media_base(front + end))]
            other.len() == end.len() && other != end ==> !other.is_suffix_of(
                media_base(front + end),
            ),
{
    let s = front + end;
    assert(!s.contains(';')) by {
        if s.contains(';') {
            let i = choose|i: int| 0 <= i < s.len() && s[i] == ';';
            if i < front.len() {
                assert(front[i] == ';');
            } else {
                assert(end[i - front.len()] == ';');
            }
        }
    }
    crate::text::lemma_pieces_without(s, ';');
    assert(s.subrange(s.len() - end.len(), s.len() as int) =~= end);
    lemma_trimmed_keeps_end(s, end);
    let base = media_base(s);
    lemma_suffix_last(base, end);
    assert forall|other: Seq<char>|
        #![trigger other.is_suffix_of(base)]
        other.len() > 0 && other.last() != end.last() implies !other.is_suffix_of(base) by {
        if other.is_suffix_of(base) {
            lemma_suffix_last(base, other);
        }
    }
}

/// A cleaned path holds the names that the path leads through and nothing else;
/// a path that is absolute, leads to a parent directory or names nothing has none.
pub proof fn law_cleaned_path(path: Seq<u8>, names: Seq<Seq<u8>>)
    ensures
        leads_through(path, names) && names.len() > 0 ==> entry_names(path) == Some(names)
            && pieces(joined(names, SLASH), SLASH) == names,
        leads_through(path, names) && names.len() == 0 ==> entry_names(path) is None,
        escapes(path) ==> entry_names(path) is None,
{
    lemma_names_of_none(components(path));
    if leads_through(path, names) {
        lemma_names_of_names(names);
        if names.len() > 0 {
            law_entry_names_plain(path);
            assert forall|i: int| 0 <= i < names.len() implies !(#[trigger] names[i]).contains(
                SLASH,
            ) by {
                assert(plain_name(names[i]));
            }
            crate::text::lemma_pieces_of_joined(names, SLASH);
        }
    }
}

/// The text of a fault ends with what it is about: the path, the media type, or
/// what ended the archive.
pub proof fn law_layer_error_texts(e: LayerError)
    ensures
        match e {
            LayerError::UnsafePath(path) => path@.is_suffix_of(e.text()),
            LayerError::UnsupportedZstd(media_type) => media_type@.is_suffix_of(e.text()),
            LayerError::UnknownMediaType(media_type) => media_type@.is_suffix_of(e.text()),
            LayerError::Archive(fault) => fault@ == e.text(),
        },
{
    let t = e.text();
    let end = match e {
        LayerError::UnsafePath(path) => path@,
        LayerError::UnsupportedZstd(media_type) => media_type@,
        LayerError::UnknownMediaType(media_type) => media_type@,
        LayerError::Archive(fault) => fault@,
    };
    assert(end =~= t.subrange(t.len() - end.len(), t.len() as int));
}

/// A layer goes by its media type: a gzip layer is decoded before it is read, a
/// plain one is read as it is, and one with another encoding is refused as a
/// whole, by its media type.
pub proof fn law_layer_by_media_type(
    plan: LayerPlan,
    dest: Seq<u8>,
    media_type: Seq<char>,
    layer: Seq<u8>,
)
    requires
        plans_layer(plan, dest, media_type, layer),
    ensures
        encoding_of(media_type) is Gzip ==> plan_for(
            plan,
            dest,
            tar_gz_listing(layer).0,
            tar_gz_listing(layer).1,
        ),
        encoding_of(media_type) is Plain ==> plan_for(
            plan,
            dest,
            tar_listing(layer).0,
            tar_listing(layer).1,
        ),
        encoding_of(media_type) is Zstd || encoding_of(media_type) is Unknown
            ==> plan.steps@.len() == 0 && (plan.fault matches Some(e) && media_type.is_suffix_of(
            e.text(),
        )),
{
    match plan.fault {
        Some(e) => {
            law_layer_error_texts(e);
        },
        None => {},
    }
}

/// A step of a plan is what its values say: nothing, what is cleared and what
/// stays, what is removed, or what is written out and where.
pub proof fn law_layer_steps(step: LayerStep)
    ensures
        match step {
            LayerStep::Skip => step@ is Skip,
            LayerStep::Clear { path, keep } => step@ matches Step::Clear(p, k) && p == path.bytes@
                && k.len() == keep@.len() && forall|i: int|
                0 <= i < k.len() ==> #[trigger] k[i] == keep@[i].bytes@,
            LayerStep::Remove { path } => step@ matches Step::Remove(p) && p == path.bytes@,
            LayerStep::Unpack { parent, path } => step@ matches Step::Unpack(up, p) && p
                == path.bytes@ && (parent matches Some(q) ==> up == Some(q.bytes@)) && (parent
                is None ==> up is None),
        },
{
}

/// White space around a media type has no say, nor has any in front of its
/// parameters.
pub proof fn law_media_type_trimmed(before: Seq<char>, media_type: Seq<char>, after: Seq<char>)
    requires
        !media_type.contains(';'),
        forall|k: int|
            0 <= k < before.len() ==> crate::text::white_space(#[trigger] before[k]),
        forall|k: int| 0 <= k < after.len() ==> crate::text::white_space(#[trigger] after[k]),
    ensures
        encoding_of(before + media_type + after) == encoding_of(media_type),
{
    let t = before + media_type + after;
    assert(!t.contains(';')) by {
        if t.contains(';') {
            let i = choose|i: int| 0 <= i < t.len() && t[i] == ';';
            let n = before.len() as int;
            if i < n {
                assert(before[i] == ';');
            } else if i < n + media_type.len() {
                assert(media_type[i - n] == ';');
            } else {
                assert(after[i - n - media_type.len()] == ';');
            }
        }
    }
    crate::text::lemma_pieces_without(t, ';');
    crate::text::lemma_pieces_without(media_type, ';');
    crate::text::law_trimmed_around(before, media_type, after);
}

/// No other media type has an encoding: what stands before the parameters, without
/// the white space around it, ends as that encoding's media types do.
pub proof fn law_no_other_media_types(media_type: Seq<char>)
    requires
        !media_type.contains(';'),
    ensures
        encoding_of(media_type) is Gzip <==> "+gzip"@.is_suffix_of(trimmed(media_type))
            || ".gzip"@.is_suffix_of(trimmed(media_type)),
        encoding_of(media_type) is Plain ==> ".tar"@.is_suffix_of(trimmed(media_type))
            || "+tar"@.is_suffix_of(trimmed(media_type)) || trimmed(media_type)
            == "application/x-tar"@,
        encoding_of(media_type) is Zstd ==> "+zstd"@.is_suffix_of(trimmed(media_type)),
{
    crate::text::lemma_pieces_without(media_type, ';');
    let base = trimmed(media_type);
    reveal_strlit(".gzip");
    reveal_strlit(".tar.gzip");
    if ".tar.gzip"@.is_suffix_of(base) {
        let n = base.len() as int;
        assert(base.subrange(n - 5, n) =~= base.subrange(n - 9, n).skip(4));
        assert(".tar.gzip"@.skip(4) =~= ".gzip"@);
    }
}

} // verus!

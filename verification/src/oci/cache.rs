//! Content-addressed cache for built file system images and their launch
//! metadata.

use super::metadata::{LaunchMetadata, Platform};
use crate::path::{
    components, join_text, last_name, law_join_adds_a_step, lemma_rooted_text,
    lemma_utf8_injective, lemma_utf8_of_concat, lossy_text, parent_path,
    path_list, rooted, text_from_utf8_lossy, Part, UnixPath, SLASH,
};
use crate::text::{
    decimal, decimal_text, lemma_decimal_injective, owned, split_at_first, split_once,
};
use vstd::prelude::*;
use vstd::utf8::*;

verus! {

/// Schema number of the metadata that this cache writes.
pub const METADATA_SCHEMA_V1: u32 = 1;

// ---------------------------------------------------------------------
// Digests
// ---------------------------------------------------------------------
/// Algorithm and value of a digest; the algorithm is `sha256` where the digest
/// names none.
pub open spec fn digest_parts(digest: Seq<char>) -> (Seq<char>, Seq<char>) {
    match split_at_first(digest, ':') {
        Some(parts) => parts,
        None => ("sha256"@, digest),
    }
}

/// Algorithm and value of a digest.
pub fn split_digest(digest: &str) -> (r: (String, String))
    ensures
        (r.0@, r.1@) == digest_parts(digest@),
{
    match split_once(digest, ':') {
        Some((algo, hex)) => (algo, hex),
        None => (owned("sha256"), owned(digest)),
    }
}

/// Value of a digest.
pub fn strip_algo(digest: &str) -> (r: String)
    ensures
        r@ == digest_parts(digest@).1,
{
    split_digest(digest).1
}

// ---------------------------------------------------------------------
// Layout
// ---------------------------------------------------------------------
/// Directory layout of the cache.
///
/// ```text
/// <root>/
///   blobs/sha256/<digest>            raw manifest/config/layer bytes
///   fs/<digest>.<platform>.squashfs  read-only base image
///   meta/<digest>.<platform>.json    launch metadata
///   tmp/                             staging for atomic writes
/// ```
#[derive(Debug)]
pub struct CacheLayout {
    root: UnixPath,
}

impl View for CacheLayout {
    type V = Seq<u8>;

    closed spec fn view(&self) -> Seq<u8> {
        self.root@
    }
}

impl Clone for CacheLayout {
    fn clone(&self) -> (r: Self)
        ensures
            r@ == self@,
    {
        CacheLayout { root: self.root.clone() }
    }
}

/// Name of a cache file for an image on a platform.
pub open spec fn slot_name(
    digest: Seq<char>,
    platform: Platform,
    extension: Seq<char>,
) -> Seq<char> {
    digest_parts(digest).1 + "."@ + platform.arch_text() + extension
}

/// Where the bytes with a digest stand.
pub open spec fn blob_slot(root: Seq<u8>, digest: Seq<char>) -> Seq<u8> {
    join_text(
        join_text(join_text(root, "blobs"@), digest_parts(digest).0),
        digest_parts(digest).1,
    )
}

/// Where the file system image of an image stands.
pub open spec fn fs_slot(root: Seq<u8>, digest: Seq<char>, platform: Platform) -> Seq<u8> {
    join_text(join_text(root, "fs"@), slot_name(digest, platform, ".squashfs"@))
}

/// Where the launch metadata of an image stands.
pub open spec fn metadata_slot(root: Seq<u8>, digest: Seq<char>, platform: Platform) -> Seq<u8> {
    join_text(join_text(root, "meta"@), slot_name(digest, platform, ".json"@))
}

/// The directories of a cache.
pub open spec fn cache_dirs(root: Seq<u8>) -> Seq<Seq<u8>> {
    seq![
        join_text(root, "blobs/sha256"@),
        join_text(root, "fs"@),
        join_text(root, "meta"@),
        join_text(root, "tmp"@),
    ]
}

/// A cache hit: file system image and launch metadata.
#[derive(Debug)]
pub struct CachedImage {
    pub fs_image: UnixPath,
    pub metadata: LaunchMetadata,
}

/// Launch metadata as the cache stores it.
#[derive(Debug)]
pub struct CachedMetadata {
    pub schema: u32,
    pub launch: LaunchMetadata,
}

/// A change to the cache directory.
#[derive(Debug, PartialEq, Eq)]
pub enum CacheStep {
    /// Create a directory and the directories above it, where they are missing.
    CreateDirAll { path: UnixPath },
    /// Write the payload to a file.
    Write { path: UnixPath },
    /// Rename a file, replacing what stands at the new name.
    Rename { from: UnixPath, to: UnixPath },
}

/// The values in a change.
pub enum CacheChange {
    CreateDirAll(Seq<u8>),
    Write(Seq<u8>),
    Rename(Seq<u8>, Seq<u8>),
}

impl View for CacheStep {
    type V = CacheChange;

    open spec fn view(&self) -> CacheChange {
        match *self {
            CacheStep::CreateDirAll { path } => CacheChange::CreateDirAll(path@),
            CacheStep::Write { path } => CacheChange::Write(path@),
            CacheStep::Rename { from, to } => CacheChange::Rename(from@, to@),
        }
    }
}

/// The values in a list of changes.
pub open spec fn cache_changes(steps: Seq<CacheStep>) -> Seq<CacheChange> {
    Seq::new(steps.len(), |i: int| steps[i]@)
}

/// Creating directories, in order.
pub open spec fn create_all(dirs: Seq<Seq<u8>>) -> Seq<CacheChange> {
    Seq::new(dirs.len(), |i: int| CacheChange::CreateDirAll(dirs[i]))
}

/// Why a file cannot be written to the cache.
#[derive(Debug, Clone, Copy, PartialEq, Eq, Structural)]
pub enum CacheError {
    /// The target path ends in no file name.
    NoFileName,
}

impl CacheError {
    /// The error as text.
    pub fn message(&self) -> (r: String)
        ensures
            r@ == "cache target has no file name"@,
    {
        owned("cache target has no file name")
    }
}

/// Where a file is staged before it is renamed to its target.
pub open spec fn staging_path(tmp_dir: Seq<u8>, file_name: Seq<u8>, process_id: u32) -> Seq<u8> {
    join_text(tmp_dir, lossy_text(file_name) + "."@ + decimal(process_id as nat) + ".tmp"@)
}

/// The changes of an atomic write, where the target has a file name.
pub open spec fn atomic_changes(
    tmp_dir: Seq<u8>,
    target: Seq<u8>,
    process_id: u32,
) -> Seq<CacheChange> {
    let staging = staging_path(tmp_dir, last_name(target)->0, process_id);
    seq![CacheChange::CreateDirAll(tmp_dir)] + (match parent_path(target) {
        Some(parent) => seq![CacheChange::CreateDirAll(parent)],
        None => Seq::<CacheChange>::empty(),
    }) + seq![CacheChange::Write(staging), CacheChange::Rename(staging, target)]
}

/// The changes that write a payload to `target` by way of a rename out of
/// `tmp_dir`, so that readers never see a partial file.
pub fn atomic_write(tmp_dir: &UnixPath, target: &UnixPath, process_id: u32) -> (r: Result<
    Vec<CacheStep>,
    CacheError,
>)
    ensures
        match r {
            Ok(steps) => last_name(target@) is Some && cache_changes(steps@) == atomic_changes(
                tmp_dir@,
                target@,
                process_id,
            ),
            Err(e) => e == CacheError::NoFileName && last_name(target@) is None,
        },
{
    let mut steps: Vec<CacheStep> = Vec::new();
    steps.push(CacheStep::CreateDirAll { path: tmp_dir.clone() });
    match target.parent() {
        Some(parent) => {
            steps.push(CacheStep::CreateDirAll { path: parent });
        },
        None => {},
    }
    let file_name: Vec<u8> = match target.file_name() {
        Some(name) => name,
        None => {
            return Err(CacheError::NoFileName);
        },
    };
    let mut name: String = text_from_utf8_lossy(&file_name);
    name.append(".");
    name.append(decimal_text(process_id as u64).as_str());
    name.append(".tmp");
    let staging: UnixPath = tmp_dir.join(name.as_str());
    steps.push(CacheStep::Write { path: staging.clone() });
    steps.push(CacheStep::Rename { from: staging, to: target.clone() });
    assert(cache_changes(steps@) =~= atomic_changes(tmp_dir@, target@, process_id));
    Ok(steps)
}

fn create_dirs(dirs: &Vec<UnixPath>) -> (r: Vec<CacheStep>)
    ensures
        cache_changes(r@) == create_all(path_list(dirs@)),
{
    let mut steps: Vec<CacheStep> = Vec::new();
    let mut i: usize = 0;
    while i < dirs.len()
        invariant
            i <= dirs.len(),
            steps.len() == i,
            forall|j: int|
                0 <= j < i ==> (#[trigger] steps@[j])@ == CacheChange::CreateDirAll(dirs@[j]@),
        decreases dirs.len() - i,
    {
        steps.push(CacheStep::CreateDirAll { path: dirs[i].clone() });
        i = i + 1;
    }
    assert(cache_changes(steps@) =~= create_all(path_list(dirs@)));
    steps
}

/// How launch metadata gets into the cache: the record to serialise, and the
/// changes that bring its bytes into place.
#[derive(Debug)]
pub struct MetadataWrite {
    pub record: CachedMetadata,
    pub steps: Vec<CacheStep>,
}

/// Whether `r` is what a lookup finds: the image where both its files are there
/// and the metadata could be read.
pub open spec fn looked_up(
    root: Seq<u8>,
    digest: Seq<char>,
    platform: Platform,
    files_present: bool,
    stored: Option<CachedMetadata>,
    r: Option<CachedImage>,
) -> bool {
    match (files_present, stored) {
        (true, Some(record)) => r matches Some(image) && image.fs_image@ == fs_slot(
            root,
            digest,
            platform,
        ) && image.metadata == record.launch,
        _ => r is None,
    }
}

/// Whether `w` is how the launch metadata of an image gets into the cache.
pub open spec fn written(
    root: Seq<u8>,
    digest: Seq<char>,
    platform: Platform,
    metadata: LaunchMetadata,
    process_id: u32,
    w: MetadataWrite,
) -> bool {
    &&& w.record.schema == METADATA_SCHEMA_V1
    &&& w.record.launch.same_as(metadata)
    &&& cache_changes(w.steps@) == create_all(cache_dirs(root)) + atomic_changes(
        join_text(root, "tmp"@),
        metadata_slot(root, digest, platform),
        process_id,
    )
}

/// The changes that move a built image into its slot.
pub open spec fn install_changes(
    root: Seq<u8>,
    digest: Seq<char>,
    platform: Platform,
    built_image: Seq<u8>,
) -> Seq<CacheChange> {
    create_all(cache_dirs(root)) + seq![
        CacheChange::Rename(built_image, fs_slot(root, digest, platform)),
    ]
}

impl CacheLayout {
    /// The layout below `root`.
    pub fn new(root: UnixPath) -> (r: CacheLayout)
        ensures
            r@ == root@,
    {
        CacheLayout { root }
    }

    /// The directory that the cache stands in.
    pub fn root(&self) -> (r: &UnixPath)
        ensures
            r@ == self@,
    {
        &self.root
    }

    /// Where the bytes with a digest stand.
    pub fn blob_path(&self, digest: &str) -> (r: UnixPath)
        ensures
            r@ == blob_slot(self@, digest@),
    {
        let (algo, hex) = split_digest(digest);
        self.root.join("blobs").join(algo.as_str()).join(hex.as_str())
    }

    fn slot(&self, dir: &str, digest: &str, platform: Platform, extension: &str) -> (r: UnixPath)
        ensures
            r@ == join_text(
                join_text(self@, dir@),
                slot_name(digest@, platform, extension@),
            ),
    {
        let mut name: String = strip_algo(digest);
        name.append(".");
        name.append(platform.cache_tag());
        name.append(extension);
        self.root.join(dir).join(name.as_str())
    }

    /// Where the file system image of an image stands.
    pub fn fs_image_path(&self, manifest_digest: &str, platform: Platform) -> (r: UnixPath)
        ensures
            r@ == fs_slot(self@, manifest_digest@, platform),
    {
        self.slot("fs", manifest_digest, platform, ".squashfs")
    }

    /// Where the launch metadata of an image stands.
    pub fn metadata_path(&self, manifest_digest: &str, platform: Platform) -> (r: UnixPath)
        ensures
            r@ == metadata_slot(self@, manifest_digest@, platform),
    {
        self.slot("meta", manifest_digest, platform, ".json")
    }

    /// The staging directory.
    pub fn tmp_dir(&self) -> (r: UnixPath)
        ensures
            r@ == join_text(self@, "tmp"@),
    {
        self.root.join("tmp")
    }

    /// The directories that the cache needs, in the order in which they are
    /// created.
    pub fn ensure_dirs(&self) -> (r: Vec<UnixPath>)
        ensures
            path_list(r@) == cache_dirs(self@),
    {
        let mut dirs: Vec<UnixPath> = Vec::new();
        dirs.push(self.root.join("blobs/sha256"));
        dirs.push(self.root.join("fs"));
        dirs.push(self.root.join("meta"));
        dirs.push(self.tmp_dir());
        assert(path_list(dirs@) =~= cache_dirs(self@));
        dirs
    }

    /// Whether an image is in the cache: both its files are, and the metadata
    /// could be read.
    pub fn lookup(
        &self,
        manifest_digest: &str,
        platform: Platform,
        fs_is_file: bool,
        metadata_is_file: bool,
        stored: Option<CachedMetadata>,
    ) -> (r: Option<CachedImage>)
        ensures
            looked_up(
                self@,
                manifest_digest@,
                platform,
                fs_is_file && metadata_is_file,
                stored,
                r,
            ),
    {
        if !fs_is_file || !metadata_is_file {
            return None;
        }
        match stored {
            Some(record) => Some(
                CachedImage {
                    fs_image: self.fs_image_path(manifest_digest, platform),
                    metadata: record.launch,
                },
            ),
            None => None,
        }
    }

    /// How to write the launch metadata of a built image atomically.
    pub fn write_metadata(
        &self,
        manifest_digest: &str,
        platform: Platform,
        metadata: &LaunchMetadata,
        process_id: u32,
    ) -> (r: Result<MetadataWrite, CacheError>)
        ensures
            match r {
                Ok(w) => last_name(metadata_slot(self@, manifest_digest@, platform)) is Some
                    && written(self@, manifest_digest@, platform, *metadata, process_id, w),
                Err(e) => e == CacheError::NoFileName && last_name(
                    metadata_slot(self@, manifest_digest@, platform),
                ) is None,
            },
    {
        let dirs: Vec<UnixPath> = self.ensure_dirs();
        let mut steps: Vec<CacheStep> = create_dirs(&dirs);
        let target: UnixPath = self.metadata_path(manifest_digest, platform);
        let record: CachedMetadata = CachedMetadata {
            schema: METADATA_SCHEMA_V1,
            launch: metadata.clone(),
        };
        match atomic_write(&self.tmp_dir(), &target, process_id) {
            Ok(mut more) => {
                let ghost a = steps@;
                let ghost b = more@;
                steps.append(&mut more);
                assert(cache_changes(steps@) =~= cache_changes(a) + cache_changes(b));
                Ok(MetadataWrite { record, steps })
            },
            Err(e) => Err(e),
        }
    }

    /// How to move a built file system image into its slot atomically, and the
    /// slot: the one rename replaces an image that is there. The built image
    /// must stand on the file system of the cache; callers build it below the
    /// staging directory.
    pub fn install_fs_image(
        &self,
        manifest_digest: &str,
        platform: Platform,
        built_image: &UnixPath,
    ) -> (r: (Vec<CacheStep>, UnixPath))
        ensures
            r.1@ == fs_slot(self@, manifest_digest@, platform),
            cache_changes(r.0@) == install_changes(
                self@,
                manifest_digest@,
                platform,
                built_image@,
            ),
    {
        let dirs: Vec<UnixPath> = self.ensure_dirs();
        let mut steps: Vec<CacheStep> = create_dirs(&dirs);
        let ghost first = cache_changes(steps@);
        let dest: UnixPath = self.fs_image_path(manifest_digest, platform);
        steps.push(CacheStep::Rename { from: built_image.clone(), to: dest.clone() });
        assert(cache_changes(steps@) =~= first + seq![CacheChange::Rename(built_image@, dest@)]);
        (steps, dest)
    }
}

// ---------------------------------------------------------------------
// Laws
// ---------------------------------------------------------------------
/// The cache gives back what was put in: after the image was installed and its
/// metadata written, the last change of each is the rename into its slot, and
/// with both files there a lookup of the same image on the same platform finds
/// that slot and, where the stored record reads back as it was written, the
/// metadata that was written.
pub proof fn law_lookup_after_write(
    root: Seq<u8>,
    digest: Seq<char>,
    platform: Platform,
    metadata: LaunchMetadata,
    process_id: u32,
    built_image: Seq<u8>,
    w: MetadataWrite,
    stored: CachedMetadata,
    r: Option<CachedImage>,
)
    requires
        written(root, digest, platform, metadata, process_id, w),
        stored.launch.same_as(w.record.launch),
        looked_up(root, digest, platform, true, Some(stored), r),
    ensures
        install_changes(root, digest, platform, built_image).last()
            == CacheChange::Rename(built_image, fs_slot(root, digest, platform)),
        cache_changes(w.steps@).last() matches CacheChange::Rename(_, to) && to == metadata_slot(
            root,
            digest,
            platform,
        ),
        r matches Some(image) && image.fs_image@ == fs_slot(root, digest, platform)
            && image.metadata.same_as(metadata),
{
}

/// Installing an image is atomic: up to the last change only directories are
/// created, and that change is the rename into the slot. Whatever fails, the
/// slot holds what it held.
pub proof fn law_install_is_atomic(
    root: Seq<u8>,
    digest: Seq<char>,
    platform: Platform,
    built_image: Seq<u8>,
    i: int,
)
    requires
        0 <= i < install_changes(root, digest, platform, built_image).len(),
    ensures
        ({
            let changes = install_changes(root, digest, platform, built_image);
            if i < changes.len() - 1 {
                changes[i] is CreateDirAll
            } else {
                changes[i] == CacheChange::Rename(built_image, fs_slot(root, digest, platform))
            }
        }),
{
}

/// The algorithm part of a digest plays no role in where images and metadata
/// stand, and a digest without one is a `sha256` digest.
pub proof fn law_digest_default_algorithm(digest: Seq<char>)
    requires
        !digest.contains(':'),
    ensures
        digest_parts(digest) == ("sha256"@, digest),
        digest_parts("sha256"@ + ":"@ + digest) == ("sha256"@, digest),
{
    crate::text::lemma_first_index(digest, ':');
    reveal_strlit("sha256");
    reveal_strlit(":");
    let s = "sha256"@;
    assert(!s.contains(':'));
    crate::text::lemma_split_at_first_of_join(s, ':', digest);
    assert(s.push(':') + digest =~= s + ":"@ + digest);
}

proof fn lemma_same_name(base: Seq<u8>, a: Seq<char>, b: Seq<char>)
    requires
        join_text(base, a) == join_text(base, b),
        !rooted(encode_utf8(a)),
        !rooted(encode_utf8(b)),
    ensures
        a == b,
{
    let x = encode_utf8(a);
    let y = encode_utf8(b);
    if base.len() == 0 {
    } else if base.last() == SLASH {
        assert((base + x).skip(base.len() as int) =~= x);
        assert((base + y).skip(base.len() as int) =~= y);
    } else {
        let front = base.push(SLASH);
        assert((front + x).skip(front.len() as int) =~= x);
        assert((front + y).skip(front.len() as int) =~= y);
    }
    lemma_utf8_injective(a, b);
}

proof fn lemma_same_slot(
    d1: Seq<char>,
    p1: Platform,
    d2: Seq<char>,
    p2: Platform,
    extension: Seq<char>,
)
    requires
        slot_name(d1, p1, extension) == slot_name(d2, p2, extension),
    ensures
        digest_parts(d1).1 == digest_parts(d2).1,
        p1 == p2,
{
    reveal_strlit("amd64");
    reveal_strlit("arm64");
    reveal_strlit(".");
    let x = digest_parts(d1).1;
    let y = digest_parts(d2).1;
    let a = slot_name(d1, p1, extension);
    let b = slot_name(d2, p2, extension);
    assert(a.len() == x.len() + 6 + extension.len());
    assert(b.len() == y.len() + 6 + extension.len());
    assert(a.take(x.len() as int) =~= x);
    assert(b.take(y.len() as int) =~= y);
    assert(a[x.len() as int + 2] == p1.arch_text()[1]);
    assert(b[y.len() as int + 2] == p2.arch_text()[1]);
}

proof fn lemma_slot_relative(digest: Seq<char>, platform: Platform, extension: Seq<char>)
    requires
        !(digest_parts(digest).1.len() > 0 && digest_parts(digest).1[0] == '/'),
    ensures
        !rooted(encode_utf8(slot_name(digest, platform, extension))),
{
    reveal_strlit(".");
    let name = slot_name(digest, platform, extension);
    lemma_rooted_text(name);
    if digest_parts(digest).1.len() > 0 {
        assert(name[0] == digest_parts(digest).1[0]);
    } else {
        assert(name[0] == '.');
    }
}

/// Slots are not shared: two images have different file system images and
/// different metadata, where a digest value does not begin with a path
/// separator.
pub proof fn law_slots_not_shared(
    root: Seq<u8>,
    d1: Seq<char>,
    p1: Platform,
    d2: Seq<char>,
    p2: Platform,
)
    requires
        !(digest_parts(d1).1.len() > 0 && digest_parts(d1).1[0] == '/'),
        !(digest_parts(d2).1.len() > 0 && digest_parts(d2).1[0] == '/'),
    ensures
        fs_slot(root, d1, p1) == fs_slot(root, d2, p2) ==> digest_parts(d1).1 == digest_parts(d2).1
            && p1 == p2,
        metadata_slot(root, d1, p1) == metadata_slot(root, d2, p2) ==> digest_parts(d1).1
            == digest_parts(d2).1 && p1 == p2,
{
    lemma_slot_relative(d1, p1, ".squashfs"@);
    lemma_slot_relative(d2, p2, ".squashfs"@);
    lemma_slot_relative(d1, p1, ".json"@);
    lemma_slot_relative(d2, p2, ".json"@);
    if fs_slot(root, d1, p1) == fs_slot(root, d2, p2) {
        lemma_same_name(
            join_text(root, "fs"@),
            slot_name(d1, p1, ".squashfs"@),
            slot_name(d2, p2, ".squashfs"@),
        );
        lemma_same_slot(d1, p1, d2, p2, ".squashfs"@);
    }
    if metadata_slot(root, d1, p1) == metadata_slot(root, d2, p2) {
        lemma_same_name(
            join_text(root, "meta"@),
            slot_name(d1, p1, ".json"@),
            slot_name(d2, p2, ".json"@),
        );
        lemma_same_slot(d1, p1, d2, p2, ".json"@);
    }
}

proof fn lemma_one_digest_two_platforms(
    base: Seq<u8>,
    digest: Seq<char>,
    p1: Platform,
    p2: Platform,
    extension: Seq<char>,
)
    requires
        p1 != p2,
    ensures
        join_text(base, slot_name(digest, p1, extension)) != join_text(
            base,
            slot_name(digest, p2, extension),
        ),
{
    let a = slot_name(digest, p1, extension);
    let b = slot_name(digest, p2, extension);
    if a == b {
        lemma_same_slot(digest, p1, digest, p2, extension);
    }
    let value = digest_parts(digest).1;
    if value.len() > 0 && value[0] == '/' {
        // Both names are absolute paths, which replace the directory.
        assert(a[0] == '/' && b[0] == '/');
        lemma_rooted_text(a);
        lemma_rooted_text(b);
        if encode_utf8(a) == encode_utf8(b) {
            lemma_utf8_injective(a, b);
        }
    } else {
        lemma_slot_relative(digest, p1, extension);
        lemma_slot_relative(digest, p2, extension);
        if join_text(base, a) == join_text(base, b) {
            lemma_same_name(base, a, b);
        }
    }
}

/// One image on two platforms has two file system images and two metadata
/// files, whatever its digest.
pub proof fn law_platforms_not_shared(
    root: Seq<u8>,
    digest: Seq<char>,
    p1: Platform,
    p2: Platform,
)
    requires
        p1 != p2,
    ensures
        fs_slot(root, digest, p1) != fs_slot(root, digest, p2),
        metadata_slot(root, digest, p1) != metadata_slot(root, digest, p2),
{
    lemma_one_digest_two_platforms(join_text(root, "fs"@), digest, p1, p2, ".squashfs"@);
    lemma_one_digest_two_platforms(join_text(root, "meta"@), digest, p1, p2, ".json"@);
}

proof fn lemma_join_last(base: Seq<u8>, text: Seq<char>, suffix: Seq<char>)
    requires
        suffix.len() > 0,
    ensures
        encode_utf8(suffix).len() > 0,
        join_text(base, text + suffix).len() > 0,
        join_text(base, text + suffix).last() == encode_utf8(suffix).last(),
{
    lemma_utf8_of_concat(text, suffix);
    if encode_utf8(suffix).len() == 0 {
        assert(encode_utf8(suffix) =~= encode_utf8(Seq::<char>::empty())) by {
            reveal_with_fuel(encode_utf8, 2);
        }
        lemma_utf8_injective(suffix, Seq::<char>::empty());
    }
}

/// Readers never see a partial file: an atomic write of metadata writes its
/// bytes to a path other than the target, and only the last change, a rename,
/// touches the target.
pub proof fn law_metadata_write_is_staged(
    root: Seq<u8>,
    digest: Seq<char>,
    platform: Platform,
    process_id: u32,
)
    ensures
        ({
            let target = metadata_slot(root, digest, platform);
            let steps = atomic_changes(join_text(root, "tmp"@), target, process_id);
            &&& steps.last() matches CacheChange::Rename(from, to) && to == target && from != target
            &&& forall|i: int|
                0 <= i < steps.len() - 1 ==> (match #[trigger] steps[i] {
                    CacheChange::Write(path) => path != target,
                    CacheChange::CreateDirAll(_) => true,
                    _ => false,
                })
        }),
{
    let target = metadata_slot(root, digest, platform);
    let tmp = join_text(root, "tmp"@);
    let name = last_name(target)->0;
    let staging = staging_path(tmp, name, process_id);
    reveal_strlit(".json");
    reveal_strlit(".tmp");
    lemma_join_last(
        join_text(root, "meta"@),
        digest_parts(digest).1 + "."@ + platform.arch_text(),
        ".json"@,
    );
    lemma_join_last(tmp, lossy_text(name) + "."@ + decimal(process_id as nat), ".tmp"@);
    is_ascii_chars_encode_utf8(".json"@);
    is_ascii_chars_encode_utf8(".tmp"@);
    assert(encode_utf8(".json"@)[4] == ".json"@[4] as u8);
    assert(encode_utf8(".tmp"@)[3] == ".tmp"@[3] as u8);
    assert(staging != target);
}

/// A digest is its algorithm, a colon and its value, and both come out whole.
pub proof fn law_digest_parts(algorithm: Seq<char>, value: Seq<char>)
    requires
        !algorithm.contains(':'),
    ensures
        digest_parts(algorithm + seq![':'] + value) == (algorithm, value),
        !value.contains(':') ==> digest_parts(value) == ("sha256"@, value),
{
    assert(algorithm + seq![':'] + value =~= algorithm.push(':') + value);
    crate::text::lemma_split_at_first_of_join(algorithm, ':', value);
    if !value.contains(':') {
        crate::text::lemma_first_index(value, ':');
        if crate::text::first_index(value, ':') < value.len() {
            assert(value[crate::text::first_index(value, ':')] == ':');
        }
    }
}

/// Whether a text can be the name of a file: ASCII, not empty, without `/`.
pub open spec fn names_a_file(text: Seq<char>) -> bool {
    is_ascii_chars(text) && text.len() > 2 && !text.contains('/')
}

proof fn lemma_slot_text(value: Seq<char>, platform: Platform, extension: Seq<char>)
    requires
        is_ascii_chars(value),
        !value.contains('/'),
        is_ascii_chars(extension),
        !extension.contains('/'),
    ensures
        names_a_file(value + "."@ + platform.arch_text() + extension),
{
    reveal_strlit(".");
    reveal_strlit("amd64");
    reveal_strlit("arm64");
    let s = value + "."@ + platform.arch_text() + extension;
    let n = value.len() as int;
    assert forall|i: int| 0 <= i < s.len() implies '\0' <= #[trigger] s[i] <= '\u{7f}' && s[i]
        != '/' by {
        if i < n {
            assert(s[i] == value[i]);
            assert(value.contains(value[i]));
        } else if i >= n + 6 {
            assert(s[i] == extension[i - n - 6]);
            assert(extension.contains(extension[i - n - 6]));
        } else if i > n {
            assert(s[i] == platform.arch_text()[i - n - 1]);
        }
    }
}

/// Where an image stands in the cache: its file system image is the file of its
/// whole digest value, the platform's tag and `.squashfs` in `fs`, its metadata
/// the same with `.json` in `meta`, and a blob stands under its algorithm and
/// value in `blobs`. The directories of both are among those of the cache.
pub proof fn law_slots(
    root: Seq<u8>,
    algorithm: Seq<char>,
    value: Seq<char>,
    platform: Platform,
)
    requires
        !algorithm.contains(':'),
        names_a_file(algorithm),
        names_a_file(value),
    ensures
        ({
            let digest = algorithm + seq![':'] + value;
            let steps = components(root);
            let tag = match platform {
                Platform::LinuxAmd64 => ".amd64"@,
                Platform::LinuxArm64 => ".arm64"@,
            };
            &&& components(fs_slot(root, digest, platform)) == steps.push(
                Part::Name(encode_utf8("fs"@)),
            ).push(Part::Name(encode_utf8(value + tag + ".squashfs"@)))
            &&& components(metadata_slot(root, digest, platform)) == steps.push(
                Part::Name(encode_utf8("meta"@)),
            ).push(Part::Name(encode_utf8(value + tag + ".json"@)))
            &&& components(blob_slot(root, digest)) == steps.push(
                Part::Name(encode_utf8("blobs"@)),
            ).push(Part::Name(encode_utf8(algorithm))).push(Part::Name(encode_utf8(value)))
            &&& exists|i: int|
                0 <= i < cache_dirs(root).len() && components(#[trigger] cache_dirs(root)[i])
                    == components(fs_slot(root, digest, platform)).drop_last()
            &&& exists|i: int|
                0 <= i < cache_dirs(root).len() && components(#[trigger] cache_dirs(root)[i])
                    == components(metadata_slot(root, digest, platform)).drop_last()
            &&& exists|i: int|
                0 <= i < cache_dirs(root).len() && components(#[trigger] cache_dirs(root)[i])
                    == steps.push(Part::Name(encode_utf8("tmp"@)))
        }),
{
    let digest = algorithm + seq![':'] + value;
    law_digest_parts(algorithm, value);
    reveal_strlit(".");
    reveal_strlit("amd64");
    reveal_strlit("arm64");
    reveal_strlit(".amd64");
    reveal_strlit(".arm64");
    reveal_strlit(".squashfs");
    reveal_strlit(".json");
    reveal_strlit("meta");
    reveal_strlit("blobs");
    reveal_strlit("tmp");
    let tag = match platform {
        Platform::LinuxAmd64 => ".amd64"@,
        Platform::LinuxArm64 => ".arm64"@,
    };
    assert(tag =~= "."@ + platform.arch_text());
    assert(value + "."@ + platform.arch_text() + ".squashfs"@ =~= value + tag + ".squashfs"@);
    assert(value + "."@ + platform.arch_text() + ".json"@ =~= value + tag + ".json"@);
    lemma_slot_text(value, platform, ".squashfs"@);
    lemma_slot_text(value, platform, ".json"@);
    lemma_fs_dir(root);
    law_join_adds_a_step(root, "meta"@);
    law_join_adds_a_step(root, "blobs"@);
    law_join_adds_a_step(root, "tmp"@);
    law_join_adds_a_step(join_text(root, "fs"@), slot_name(digest, platform, ".squashfs"@));
    law_join_adds_a_step(join_text(root, "meta"@), slot_name(digest, platform, ".json"@));
    law_join_adds_a_step(join_text(root, "blobs"@), algorithm);
    law_join_adds_a_step(join_text(join_text(root, "blobs"@), algorithm), value);
    let fs = components(fs_slot(root, digest, platform));
    let meta = components(metadata_slot(root, digest, platform));
    assert(components(cache_dirs(root)[1]) =~= fs.drop_last());
    assert(components(cache_dirs(root)[2]) =~= meta.drop_last());
    assert(components(cache_dirs(root)[3]) == components(root).push(
        Part::Name(encode_utf8("tmp"@)),
    ));
}

proof fn lemma_fs_dir(root: Seq<u8>)
    ensures
        components(join_text(root, "fs"@)) == components(root).push(
            Part::Name(encode_utf8("fs"@)),
        ),
{
    reveal_strlit("fs");
    crate::path::lemma_ascii_bytes("fs"@);
    let n = encode_utf8("fs"@);
    assert(n[0] as int == 'f' as int && n[1] as int == 's' as int);
    let names = seq![n];
    assert(crate::path::plain_name(n));
    assert(crate::text::joined(names, SLASH) == n);
    crate::path::lemma_components_of_join(root, names);
    assert(crate::path::name_parts(names) =~= seq![Part::Name(n)]);
    assert(components(root) + seq![Part::Name(n)] =~= components(root).push(Part::Name(n)));
}

/// A lookup finds an image exactly where its two files are there and its
/// metadata could be read, and hands out that very metadata.
pub proof fn law_lookup(
    root: Seq<u8>,
    digest: Seq<char>,
    platform: Platform,
    files_present: bool,
    stored: Option<CachedMetadata>,
    r: Option<CachedImage>,
)
    requires
        looked_up(root, digest, platform, files_present, stored, r),
    ensures
        r is Some <==> files_present && stored is Some,
        r matches Some(image) ==> image.metadata == (stored->0).launch && image.fs_image@
            == fs_slot(root, digest, platform),
{
}

/// What is written is what was given: the record of an image holds its launch
/// and the first schema number, the file that is renamed into the slot is the
/// one that was written, and all directories of the cache, that of the target
/// and that of the staging file are there before.
pub proof fn law_metadata_write(
    root: Seq<u8>,
    digest: Seq<char>,
    platform: Platform,
    metadata: LaunchMetadata,
    process_id: u32,
    w: MetadataWrite,
)
    requires
        written(root, digest, platform, metadata, process_id, w),
    ensures
        w.record.schema == 1,
        w.record.launch.same_as(metadata),
        ({
            let steps = cache_changes(w.steps@);
            let n = steps.len() as int;
            &&& n >= 2
            &&& steps[n - 1] matches CacheChange::Rename(from, to) && to == metadata_slot(
                root,
                digest,
                platform,
            ) && steps[n - 2] == CacheChange::Write(from)
            &&& forall|i: int| 0 <= i < n - 2 ==> #[trigger] steps[i] is CreateDirAll
            &&& forall|k: int|
                0 <= k < cache_dirs(root).len() ==> steps.contains(
                    CacheChange::CreateDirAll(#[trigger] cache_dirs(root)[k]),
                )
            &&& parent_path(metadata_slot(root, digest, platform)) matches Some(up)
                ==> steps.contains(CacheChange::CreateDirAll(up))
        }),
{
    let steps = cache_changes(w.steps@);
    let target = metadata_slot(root, digest, platform);
    let tmp = join_text(root, "tmp"@);
    let a = create_all(cache_dirs(root));
    let b = atomic_changes(tmp, target, process_id);
    assert(steps == a + b);
    assert forall|k: int| 0 <= k < cache_dirs(root).len() implies steps.contains(
        CacheChange::CreateDirAll(#[trigger] cache_dirs(root)[k]),
    ) by {
        assert(steps[k] == CacheChange::CreateDirAll(cache_dirs(root)[k]));
    }
    match parent_path(target) {
        Some(up) => {
            assert(b[1] == CacheChange::CreateDirAll(up));
            assert(steps[a.len() + 1int] == CacheChange::CreateDirAll(up));
        },
        None => {},
    }
    let n = steps.len() as int;
    assert(steps[n - 1] == b[b.len() - 1]);
    assert(steps[n - 2] == b[b.len() - 2]);
    assert forall|i: int| 0 <= i < n - 2 implies #[trigger] steps[i] is CreateDirAll by {
        if i >= a.len() {
            assert(steps[i] == b[i - a.len()]);
        }
    }
}

/// Two processes that write the same file stage it under different names.
pub proof fn law_staging_not_shared(tmp_dir: Seq<u8>, file_name: Seq<u8>, p: u32, q: u32)
    requires
        p != q,
    ensures
        staging_path(tmp_dir, file_name, p) != staging_path(tmp_dir, file_name, q),
{
    reveal_strlit(".");
    reveal_strlit(".tmp");
    let front = lossy_text(file_name) + "."@;
    let a = front + decimal(p as nat) + ".tmp"@;
    let b = front + decimal(q as nat) + ".tmp"@;
    if a == b {
        let n = front.len() as int;
        assert(a.len() == n + decimal(p as nat).len() + 4);
        assert(a.subrange(n, a.len() - 4) =~= decimal(p as nat));
        assert(b.subrange(n, b.len() - 4) =~= decimal(q as nat));
        lemma_decimal_injective(p as nat, q as nat);
    }
    assert(a[0] == front[0] && b[0] == front[0]);
    lemma_rooted_text(a);
    lemma_rooted_text(b);
    if join_text(tmp_dir, a) == join_text(tmp_dir, b) {
        if rooted(encode_utf8(a)) {
            lemma_utf8_injective(a, b);
        } else {
            lemma_same_name(tmp_dir, a, b);
        }
    }
}

/// An image is installed by one rename, behind the creation of all directories of
/// the cache, and nothing else is changed.
pub proof fn law_install(
    root: Seq<u8>,
    digest: Seq<char>,
    platform: Platform,
    built_image: Seq<u8>,
)
    ensures
        ({
            let changes = install_changes(root, digest, platform, built_image);
            &&& changes.len() == cache_dirs(root).len() + 1
            &&& changes.last() == CacheChange::Rename(built_image, fs_slot(root, digest, platform))
            &&& forall|k: int|
                0 <= k < cache_dirs(root).len() ==> changes[k] == CacheChange::CreateDirAll(
                    #[trigger] cache_dirs(root)[k],
                )
        }),
{
}

/// The directory for blobs with the usual algorithm is among those of the cache.
pub proof fn law_blob_dir(root: Seq<u8>)
    ensures
        exists|i: int|
            0 <= i < cache_dirs(root).len() && components(#[trigger] cache_dirs(root)[i])
                == components(root) + seq![
                Part::Name(encode_utf8("blobs"@)),
                Part::Name(encode_utf8("sha256"@)),
            ],
{
    reveal_strlit("blobs");
    reveal_strlit("sha256");
    reveal_strlit("blobs/sha256");
    assert("blobs/sha256"@ =~= "blobs"@ + seq!['/'] + "sha256"@);
    crate::path::law_join_adds_two_steps(root, "blobs"@, "sha256"@, "blobs/sha256"@);
    assert(cache_dirs(root)[0] == join_text(root, "blobs/sha256"@));
}

/// A change of the cache is what its values say, and a list of changes holds each
/// in its place.
pub proof fn law_cache_steps(steps: Seq<CacheStep>)
    ensures
        cache_changes(steps).len() == steps.len(),
        forall|i: int|
            0 <= i < steps.len() ==> (match steps[i] {
                CacheStep::CreateDirAll { path } => #[trigger] cache_changes(steps)[i]
                    == CacheChange::CreateDirAll(path.bytes@),
                CacheStep::Write { path } => cache_changes(steps)[i] == CacheChange::Write(
                    path.bytes@,
                ),
                CacheStep::Rename { from, to } => cache_changes(steps)[i] == CacheChange::Rename(
                    from.bytes@,
                    to.bytes@,
                ),
            }),
{
}

/// The metadata of an image can be written wherever its digest value can name a
/// file: its slot ends in a file name, which no other slot of the image has.
#[verifier::rlimit(40)]
#[verifier::spinoff_prover]
pub proof fn law_metadata_has_a_name(
    root: Seq<u8>,
    algorithm: Seq<char>,
    value: Seq<char>,
    platform: Platform,
)
    requires
        !algorithm.contains(':'),
        names_a_file(algorithm),
        names_a_file(value),
    ensures
        last_name(metadata_slot(root, algorithm + seq![':'] + value, platform)) is Some,
        metadata_slot(root, algorithm + seq![':'] + value, platform) != fs_slot(
            root,
            algorithm + seq![':'] + value,
            platform,
        ),
{
    let digest = algorithm + seq![':'] + value;
    law_slots(root, algorithm, value, platform);
    crate::path::law_file_name_is_last_step(metadata_slot(root, digest, platform));
    let meta = components(metadata_slot(root, digest, platform));
    let fs = components(fs_slot(root, digest, platform));
    reveal_strlit("fs");
    reveal_strlit("meta");
    crate::path::lemma_ascii_bytes("fs"@);
    crate::path::lemma_ascii_bytes("meta"@);
    let n = components(root).len() as int;
    assert(meta.last() is Name);
    assert(meta[n] == Part::Name(encode_utf8("meta"@)));
    assert(fs[n] == Part::Name(encode_utf8("fs"@)));
}

} // verus!

//! The archives that image layers come in: tar, plain or gzip-compressed.
//!
//! The entries of an archive are read with the `tar` crate, and gzip streams are
//! decoded with `flate2`. The walk over an archive keeps its position in a
//! `u64`. One kind of entry can drive it beyond: a walk that comes to such an
//! entry ends there, with a fault.

use crate::path::{copy_bytes, copy_range, path_list, push_bytes, same_bytes, UnixPath};
use crate::text::{owned, text_opt};
use vstd::prelude::*;

verus! {

/// Length of a tar block. Headers and contents begin at multiples of it.
pub const BLOCK: usize = 512;

/// Length up to which an archive is walked.
pub const WALK_LIMIT: u64 = 0x7fff_ffff_ffff_0000;

/// What ends a walk that would be driven beyond a `u64`.
pub const SIZE_OVERFLOW: &'static str = "size overflow";

// ---------------------------------------------------------------------
// Archives that can be walked
// ---------------------------------------------------------------------
/// What the magic and version fields of a GNU header hold: `ustar`, two spaces
/// and a NUL byte.
pub open spec fn gnu_magic() -> Seq<u8> {
    seq![0x75, 0x73, 0x74, 0x61, 0x72, 0x20, 0x20, 0x00]
}

/// What a PAX record for the size of an entry begins with: `size=`.
pub open spec fn size_key() -> Seq<u8> {
    seq![0x73, 0x69, 0x7a, 0x65, 0x3d]
}

/// Whether block `k` reads as the GNU header of a sparse file whose map goes on
/// in further blocks.
pub open spec fn extended_sparse(bytes: Seq<u8>, k: int) -> bool {
    &&& 0 <= k
    &&& 512 * k + 512 <= bytes.len()
    &&& bytes[512 * k + 156] == 0x53
    &&& bytes[512 * k + 482] == 1
    &&& bytes.subrange(512 * k + 257, 512 * k + 265) == gnu_magic()
}

/// Whether the size field of the header in block `k` holds a binary number of
/// at least half the range of a `u64`. An octal number in it is always smaller.
pub open spec fn far_header(bytes: Seq<u8>, k: int) -> bool {
    bytes[512 * k + 124] >= 0x80 && bytes[512 * k + 128] >= 0x80
}

/// Whether a byte can stand in the number of a PAX record.
pub open spec fn number_byte(b: u8) -> bool {
    0x30 <= b <= 0x39 || b == 0x2b
}

/// Whether a size record with a number of 19 bytes or more begins at `i`. A
/// shorter number is below half the range of a `u64`.
pub open spec fn far_record(bytes: Seq<u8>, i: int) -> bool {
    &&& 0 <= i
    &&& i + 24 <= bytes.len()
    &&& bytes.subrange(i, i + 5) == size_key()
    &&& forall|j: int| i + 5 <= j < i + 24 ==> number_byte(#[trigger] bytes[j])
}

/// Whether block `k` reads as the header of a sparse file whose map goes on in
/// the next block, and could have a size in the upper half of a `u64`: by its
/// header, or by a PAX record, if there is one with a number of such a length.
pub open spec fn may_be_far(bytes: Seq<u8>, k: int) -> bool {
    &&& extended_sparse(bytes, k)
    &&& 512 * k + 1024 <= bytes.len()
    &&& far_header(bytes, k) || exists|i: int| far_record(bytes, i)
}

/// The archive up to the header in block `k`, which is made that of an entry of
/// another type without a map. Its type grows by one and its flag for more of
/// the map shrinks by one, so that its checksum stays.
pub open spec fn probe(bytes: Seq<u8>, k: int) -> Seq<u8> {
    bytes.take(512 * k + 512).update(512 * k + 156, 0x54).update(512 * k + 482, 0)
}

/// Whether the walk over an archive comes to block `k` as a header, of an entry
/// whose size, by its header or by the PAX record that goes with it, drives the
/// walk beyond a `u64` with the blocks of the archive.
pub open spec fn meets_far(bytes: Seq<u8>, k: int) -> bool {
    let entries = tar_walk(probe(bytes, k)).0;
    &&& entries.len() > 0
    &&& entries.last().1 == 512 * k
    &&& entries.last().2 + bytes.len() + 511 > u64::MAX
}

/// Whether the walk over an archive is driven beyond a `u64` in block `k`.
///
/// The one addition that could do so comes with the map of a sparse file that
/// goes on in further blocks: it is made to the end of the file's contents.
pub open spec fn overflows_at(bytes: Seq<u8>, k: int) -> bool {
    may_be_far(bytes, k) && meets_far(bytes, k)
}

/// Whether the walk over an archive keeps within a `u64`.
pub open spec fn walkable(bytes: Seq<u8>) -> bool {
    &&& bytes.len() <= WALK_LIMIT
    &&& forall|k: int| !#[trigger] overflows_at(bytes, k)
}

fn gnu_magic_bytes() -> (r: Vec<u8>)
    ensures
        r@ == gnu_magic(),
{
    let r: Vec<u8> = vec![0x75, 0x73, 0x74, 0x61, 0x72, 0x20, 0x20, 0x00];
    assert(r@ =~= gnu_magic());
    r
}

fn size_key_bytes() -> (r: Vec<u8>)
    ensures
        r@ == size_key(),
{
    let r: Vec<u8> = vec![0x73, 0x69, 0x7a, 0x65, 0x3d];
    assert(r@ =~= size_key());
    r
}

/// Whether a size record with a number of 19 bytes or more begins at `at`.
fn far_record_at(bytes: &Vec<u8>, at: usize, key: &Vec<u8>) -> (r: bool)
    requires
        key@ == size_key(),
        at <= bytes.len(),
    ensures
        r == far_record(bytes@, at as int),
{
    if bytes.len() - at < 24 {
        return false;
    }
    if bytes[at] != 0x73 || !same_bytes(&copy_range(bytes, at, at + 5), key) {
        assert(bytes@.subrange(at as int, at + 5) == size_key() ==> bytes@.subrange(
            at as int,
            at + 5,
        )[0] == 0x73);
        return false;
    }
    let mut j: usize = at + 5;
    while j < at + 24
        invariant
            at + 5 <= j <= at + 24 <= bytes.len(),
            forall|i: int| at + 5 <= i < j ==> number_byte(#[trigger] bytes@[i]),
        decreases at + 24 - j,
    {
        let b: u8 = bytes[j];
        if !((0x30 <= b && b <= 0x39) || b == 0x2b) {
            assert(!number_byte(bytes@[j as int]));
            return false;
        }
        j = j + 1;
    }
    true
}

/// Whether a size record with a number of 19 bytes or more stands anywhere.
fn holds_far_record(bytes: &Vec<u8>) -> (r: bool)
    ensures
        r == exists|i: int| far_record(bytes@, i),
{
    let key: Vec<u8> = size_key_bytes();
    let mut i: usize = 0;
    while i < bytes.len()
        invariant
            i <= bytes.len(),
            key@ == size_key(),
            forall|j: int| j < i ==> !#[trigger] far_record(bytes@, j),
        decreases bytes.len() - i,
    {
        if far_record_at(bytes, i, &key) {
            assert(far_record(bytes@, i as int));
            return true;
        }
        i = i + 1;
    }
    false
}

// ---------------------------------------------------------------------
// Walks
// ---------------------------------------------------------------------
/// The entry paths of an archive, in order, and the fault that ends the walk.
pub struct Listing {
    pub paths: Vec<UnixPath>,
    pub fault: Option<String>,
}

impl View for Listing {
    type V = (Seq<Seq<u8>>, Option<Seq<char>>);

    open spec fn view(&self) -> (Seq<Seq<u8>>, Option<Seq<char>>) {
        (path_list(self.paths@), text_opt(self.fault))
    }
}

/// A walk over bytes: the entries in order, the fault that ends it, and how many
/// bytes it left unread.
pub struct TarWalk {
    /// Of each entry the path, the position of its header, and the size that the
    /// walk takes it for.
    pub entries: Vec<(Vec<u8>, u64, u64)>,
    pub fault: Option<String>,
    pub unread: usize,
}

impl View for TarWalk {
    type V = (Seq<(Seq<u8>, nat, nat)>, Option<Seq<char>>, nat);

    open spec fn view(&self) -> (Seq<(Seq<u8>, nat, nat)>, Option<Seq<char>>, nat) {
        let entries = Seq::new(
            self.entries@.len(),
            |i: int|
                (self.entries@[i].0@, self.entries@[i].1 as nat, self.entries@[i].2 as nat),
        );
        (entries, text_opt(self.fault), self.unread as nat)
    }
}

/// What `tar::Archive` reads out of the given bytes: of each entry the path, the
/// position of its header and its size; the text of the error that ends the
/// walk; and how many bytes the walk leaves unread.
pub uninterp spec fn tar_walk(bytes: Seq<u8>) -> (
    Seq<(Seq<u8>, nat, nat)>,
    Option<Seq<char>>,
    nat,
);

/// Walks the entries of a tar archive with `tar::Archive::entries`, taking
/// `path_bytes`, `raw_header_position` and `size` of each, and then asks with
/// `into_inner` what is left of the bytes.
///
/// What the walk finds is a function of the bytes alone, here only named. Not
/// stated: what it finds on given bytes. On bytes that are not `walkable` the
/// walk can overflow its position, which stops a build with overflow checks.
#[verifier::external_body]
fn walk_tar(bytes: &Vec<u8>) -> (r: TarWalk)
    requires
        walkable(bytes@),
    ensures
        r@ == tar_walk(bytes@),
{
    let (mut entries, mut fault) = (Vec::new(), None);
    let mut archive = tar::Archive::new(bytes.as_slice());
    match archive.entries() {
        Ok(list) => for entry in list {
            match entry {
                Ok(e) => entries.push(
                    (e.path_bytes().into_owned(), e.raw_header_position(), e.size()),
                ),
                Err(e) => fault = Some(e.to_string()),
            }
        },
        Err(e) => fault = Some(e.to_string()),
    }
    TarWalk { entries, fault, unread: archive.into_inner().len() }
}

/// The paths of the entries that a walk comes to.
pub open spec fn walk_paths(entries: Seq<(Seq<u8>, nat, nat)>) -> Seq<Seq<u8>> {
    Seq::new(entries.len(), |i: int| entries[i].0)
}

fn entry_paths(entries: Vec<(Vec<u8>, u64, u64)>) -> (r: Vec<UnixPath>)
    ensures
        path_list(r@) == Seq::new(entries@.len(), |i: int| entries@[i].0@),
{
    let mut r: Vec<UnixPath> = Vec::new();
    let mut i: usize = 0;
    while i < entries.len()
        invariant
            i <= entries.len(),
            r.len() == i,
            forall|j: int| 0 <= j < i ==> (#[trigger] r@[j])@ == entries@[j].0@,
        decreases entries.len() - i,
    {
        r.push(UnixPath { bytes: copy_bytes(&entries[i].0) });
        i = i + 1;
    }
    assert(path_list(r@) =~= Seq::new(entries@.len(), |i: int| entries@[i].0@));
    r
}

fn paths_of(walk: TarWalk) -> (r: Vec<UnixPath>)
    ensures
        path_list(r@) == walk_paths(walk@.0),
{
    let ghost all = walk@.0;
    let r: Vec<UnixPath> = entry_paths(walk.entries);
    assert(path_list(r@) =~= walk_paths(all));
    r
}

// ---------------------------------------------------------------------
// Where a walk would overflow
// ---------------------------------------------------------------------
/// Up to the first block in which a walk would be driven too far, an archive can
/// be walked.
proof fn lemma_walkable_before(bytes: Seq<u8>, part: Seq<u8>, k: int)
    requires
        bytes.len() <= WALK_LIMIT,
        0 <= k,
        512 * k + 512 <= bytes.len(),
        forall|j: int| j < k ==> !#[trigger] overflows_at(bytes, j),
        part == probe(bytes, k) || part == bytes.take(512 * k + 512),
    ensures
        walkable(part),
{
    assert(part.len() == 512 * k + 512);
    assert forall|j: int| !#[trigger] overflows_at(part, j) by {
        if overflows_at(part, j) {
            assert(j < k);
            assert(512 * j + 512 <= 512 * k);
            assert forall|i: int| 0 <= i < 512 * k implies part[i] == bytes[i] by {}
            assert(part.subrange(512 * j + 257, 512 * j + 265) =~= bytes.subrange(
                512 * j + 257,
                512 * j + 265,
            ));
            assert(extended_sparse(bytes, j));
            if exists|i: int| far_record(part, i) {
                let i = choose|i: int| far_record(part, i);
                lemma_same_record(bytes, part, k, i);
            }
            assert(may_be_far(bytes, j));
            assert(part.take(512 * j + 512) =~= bytes.take(512 * j + 512));
            assert(probe(part, j) == probe(bytes, j));
            assert(overflows_at(bytes, j));
        }
    }
}

proof fn lemma_same_record(bytes: Seq<u8>, part: Seq<u8>, k: int, i: int)
    requires
        0 <= k,
        512 * k + 512 <= bytes.len(),
        part == probe(bytes, k) || part == bytes.take(512 * k + 512),
        far_record(part, i),
    ensures
        far_record(bytes, i),
{
    let key = size_key();
    assert forall|j: int| i <= j < i + 24 implies part[j] == bytes[j] by {
        if j < i + 5 {
            assert(part.subrange(i, i + 5)[j - i] == part[j]);
            assert(key[j - i] == part[j]);
        } else {
            assert(number_byte(part[j]));
        }
    }
    assert(bytes.subrange(i, i + 5) =~= part.subrange(i, i + 5));
    assert forall|j: int| i + 5 <= j < i + 24 implies number_byte(#[trigger] bytes[j]) by {
        assert(number_byte(part[j]));
    }
}

/// Whether the walk comes to block `at / 512` as the header of an entry that
/// drives it too far.
fn meets_far_at(bytes: &Vec<u8>, at: usize, Ghost(k): Ghost<int>) -> (r: bool)
    requires
        bytes.len() <= WALK_LIMIT,
        0 <= k,
        at == 512 * k,
        512 * k + 512 <= bytes.len(),
        forall|j: int| j < k ==> !#[trigger] overflows_at(bytes@, j),
    ensures
        r == meets_far(bytes@, k),
{
    let mut part: Vec<u8> = copy_range(bytes, 0, at + BLOCK);
    assert(part@ =~= bytes@.take(512 * k + 512));
    part.set(at + 156, 0x54);
    part.set(at + 482, 0);
    assert(part@ == probe(bytes@, k));
    proof {
        lemma_walkable_before(bytes@, part@, k);
    }
    let walk: TarWalk = walk_tar(&part);
    let n: usize = walk.entries.len();
    if n == 0 {
        return false;
    }
    assert(walk@.0.last() == (
        walk.entries@[n - 1].0@,
        walk.entries@[n - 1].1 as nat,
        walk.entries@[n - 1].2 as nat,
    ));
    walk.entries[n - 1].1 == at as u64 && walk.entries[n - 1].2 > u64::MAX - 511
        - bytes.len() as u64
}

/// The first block in which the walk over an archive would be driven too far,
/// by its position.
fn first_overflow(bytes: &Vec<u8>) -> (r: Option<usize>)
    requires
        bytes.len() <= WALK_LIMIT,
    ensures
        match r {
            Some(at) => exists|k: int| #[trigger] first_far(bytes@, k) && at == 512 * k && 512 * k
                + 512 <= bytes.len(),
            None => walkable(bytes@),
        },
{
    let magic: Vec<u8> = gnu_magic_bytes();
    let far_somewhere: bool = holds_far_record(bytes);
    let mut at: usize = 0;
    let ghost mut k: int = 0;
    while bytes.len() - at >= 1024
        invariant
            bytes.len() <= WALK_LIMIT,
            at <= bytes.len(),
            k >= 0,
            at == 512 * k,
            magic@ == gnu_magic(),
            far_somewhere == exists|i: int| far_record(bytes@, i),
            forall|j: int| j < k ==> !#[trigger] overflows_at(bytes@, j),
        decreases bytes.len() - at,
    {
        let sparse: bool = bytes[at + 156] == 0x53 && bytes[at + 482] == 1 && same_bytes(
            &copy_range(bytes, at + 257, at + 265),
            &magic,
        );
        assert(sparse == extended_sparse(bytes@, k));
        let far: bool = bytes[at + 124] >= 0x80 && bytes[at + 128] >= 0x80;
        if sparse && (far || far_somewhere) {
            assert(may_be_far(bytes@, k));
            if meets_far_at(bytes, at, Ghost(k)) {
                assert(first_far(bytes@, k));
                return Some(at);
            }
        }
        at = at + BLOCK;
        proof {
            k = k + 1;
        }
    }
    assert forall|j: int| !#[trigger] overflows_at(bytes@, j) by {}
    None
}

/// What a gzip stream decodes to, and the fault that breaks it off.
pub struct Decoded {
    pub bytes: Vec<u8>,
    pub fault: Option<String>,
}

impl View for Decoded {
    type V = (Seq<u8>, Option<Seq<char>>);

    open spec fn view(&self) -> (Seq<u8>, Option<Seq<char>>) {
        (self.bytes@, text_opt(self.fault))
    }
}

/// The bytes that `flate2::read::GzDecoder` gives for a gzip stream, and the
/// text of the error with which it breaks off, if it does.
pub uninterp spec fn gunzipped(bytes: Seq<u8>) -> (Seq<u8>, Option<Seq<char>>);

/// Decodes a gzip stream with `flate2::read::GzDecoder`, read to its end.
///
/// What it gives is a function of the bytes alone, here only named. Not stated:
/// what it gives for given bytes.
#[verifier::external_body]
fn gunzip(bytes: &Vec<u8>) -> (r: Decoded)
    ensures
        r@ == gunzipped(bytes@),
{
    let mut decoded = Vec::new();
    let mut reader = flate2::read::GzDecoder::new(bytes.as_slice());
    let end = std::io::Read::read_to_end(&mut reader, &mut decoded);
    Decoded { bytes: decoded, fault: end.err().map(|e| e.to_string()) }
}

/// Whether block `k` is the first in which the walk over an archive would be
/// driven too far.
pub open spec fn first_far(bytes: Seq<u8>, k: int) -> bool {
    overflows_at(bytes, k) && forall|j: int| j < k ==> !#[trigger] overflows_at(bytes, j)
}

/// What a tar archive lists. Where the walk would be driven beyond a `u64`, it
/// lists the entries before and ends with a fault.
pub open spec fn tar_listing(bytes: Seq<u8>) -> (Seq<Seq<u8>>, Option<Seq<char>>) {
    if bytes.len() > WALK_LIMIT {
        (Seq::empty(), Some(SIZE_OVERFLOW@))
    } else if walkable(bytes) {
        (walk_paths(tar_walk(bytes).0), tar_walk(bytes).1)
    } else {
        let k = choose|k: int| #[trigger] first_far(bytes, k);
        (walk_paths(tar_walk(bytes.take(512 * k + 512)).0), Some(SIZE_OVERFLOW@))
    }
}

/// The given bytes with a block of zeros behind them.
pub open spec fn with_zeros(bytes: Seq<u8>) -> Seq<u8> {
    bytes + Seq::new(512, |i: int| 0u8)
}

/// Whether the walk over an archive ends before the archive does: with a block
/// of zeros behind it, it reads none of them.
pub open spec fn ends_early(bytes: Seq<u8>) -> bool {
    walkable(with_zeros(bytes)) && tar_walk(with_zeros(bytes)).2 >= 512
}

/// What a gzip-compressed tar archive lists.
///
/// Where the stream breaks off, the entries that were decoded are listed, and
/// the break is the fault that ends the walk unless the walk has ended before.
pub open spec fn tar_gz_listing(bytes: Seq<u8>) -> (Seq<Seq<u8>>, Option<Seq<char>>) {
    let (data, fault) = gunzipped(bytes);
    match fault {
        Some(text) if walkable(data) && !ends_early(data) => (tar_listing(data).0, Some(text)),
        _ => tar_listing(data),
    }
}

/// Lists the entries of a tar archive.
pub fn list_tar(bytes: &Vec<u8>) -> (r: Listing)
    ensures
        r@ == tar_listing(bytes@),
{
    if bytes.len() as u64 > WALK_LIMIT {
        let paths: Vec<UnixPath> = Vec::new();
        assert(path_list(paths@) =~= Seq::<Seq<u8>>::empty());
        return Listing { paths, fault: Some(owned(SIZE_OVERFLOW)) };
    }
    match first_overflow(bytes) {
        None => list_walkable(bytes),
        Some(at) => {
            let part: Vec<u8> = copy_range(bytes, 0, at + BLOCK);
            proof {
                let k = choose|k: int| #[trigger] first_far(bytes@, k);
                let m = choose|m: int| #[trigger]
                    first_far(bytes@, m) && at == 512 * m && 512 * m + 512 <= bytes.len();
                if k < m {
                    assert(!overflows_at(bytes@, k));
                }
                if m < k {
                    assert(!overflows_at(bytes@, m));
                }
                assert(part@ =~= bytes@.take(512 * k + 512));
                lemma_walkable_before(bytes@, part@, k);
                assert(overflows_at(bytes@, k));
            }
            Listing { paths: paths_of(walk_tar(&part)), fault: Some(owned(SIZE_OVERFLOW)) }
        },
    }
}

fn list_walkable(bytes: &Vec<u8>) -> (r: Listing)
    requires
        walkable(bytes@),
    ensures
        r@ == tar_listing(bytes@),
{
    let walk: TarWalk = walk_tar(bytes);
    let fault: Option<String> = copy_text_opt(&walk.fault);
    Listing { paths: paths_of(walk), fault }
}

fn copy_text_opt(s: &Option<String>) -> (r: Option<String>)
    ensures
        text_opt(r) == text_opt(*s),
{
    match s {
        Some(t) => Some(t.clone()),
        None => None,
    }
}

/// Whether the walk over an archive keeps within a `u64`.
pub fn is_walkable(bytes: &Vec<u8>) -> (r: bool)
    ensures
        r == walkable(bytes@),
{
    if bytes.len() as u64 > WALK_LIMIT {
        return false;
    }
    match first_overflow(bytes) {
        Some(_) => {
            proof {
                let k = choose|k: int| #[trigger] first_far(bytes@, k);
                assert(overflows_at(bytes@, k));
            }
            false
        },
        None => true,
    }
}

/// Lists the entries of a gzip-compressed tar archive.
pub fn list_tar_gz(bytes: &Vec<u8>) -> (r: Listing)
    ensures
        r@ == tar_gz_listing(bytes@),
{
    let decoded: Decoded = gunzip(bytes);
    match decoded.fault {
        None => list_tar(&decoded.bytes),
        Some(text) => {
            if !is_walkable(&decoded.bytes) {
                return list_tar(&decoded.bytes);
            }
            let listing: Listing = list_walkable(&decoded.bytes);
            let mut longer: Vec<u8> = decoded.bytes;
            push_zeros(&mut longer);
            if is_walkable(&longer) && walk_tar(&longer).unread >= BLOCK {
                listing
            } else {
                Listing { paths: listing.paths, fault: Some(text) }
            }
        },
    }
}

fn push_zeros(bytes: &mut Vec<u8>)
    ensures
        final(bytes)@ == with_zeros(old(bytes)@),
{
    let mut zeros: Vec<u8> = Vec::new();
    while zeros.len() < BLOCK
        invariant
            zeros.len() <= BLOCK,
            forall|i: int| 0 <= i < zeros.len() ==> zeros@[i] == 0,
        decreases BLOCK - zeros.len(),
    {
        zeros.push(0);
    }
    push_bytes(bytes, &zeros);
    assert(bytes@ =~= with_zeros(old(bytes)@));
}

// ---------------------------------------------------------------------
// Laws
// ---------------------------------------------------------------------
/// Whether block `k` has the type of a sparse file where a header has its type.
pub open spec fn typed_sparse(bytes: Seq<u8>, k: int) -> bool {
    0 <= k && 512 * k + 512 <= bytes.len() && bytes[512 * k + 156] == 0x53
}

/// An archive in which no block has the type of a sparse file is walked to its
/// end, whatever it holds, up to a length that no archive reaches: every entry is
/// listed with its own path, in the order of the archive, and what ended the walk
/// is the fault.
pub proof fn law_every_entry_is_listed(bytes: Seq<u8>)
    requires
        bytes.len() <= 0x4000_0000_0000_0000,
        forall|k: int| !#[trigger] typed_sparse(bytes, k),
    ensures
        walkable(bytes),
        tar_listing(bytes).0.len() == tar_walk(bytes).0.len(),
        forall|i: int|
            0 <= i < tar_walk(bytes).0.len() ==> tar_listing(bytes).0[i] == (#[trigger] tar_walk(
                bytes,
            ).0[i]).0,
        tar_listing(bytes).1 == tar_walk(bytes).1,
{
    assert forall|k: int| !#[trigger] overflows_at(bytes, k) by {
        assert(!typed_sparse(bytes, k));
    }
}

/// No walk goes beyond a `u64`: an archive that would drive it there ends with a
/// fault, and never counts as read to its end.
pub proof fn law_overflow_is_a_fault(bytes: Seq<u8>)
    requires
        !walkable(bytes),
    ensures
        tar_listing(bytes).1 == Some("size overflow"@),
{
}

/// A compressed archive lists what it decodes to: the same entries as the decoded
/// bytes, in any case, and the same end where the stream is whole. Where the
/// stream breaks off before the archive has ended, the break is the fault.
pub proof fn law_compressed_archive(bytes: Seq<u8>)
    ensures
        tar_gz_listing(bytes).0 == tar_listing(gunzipped(bytes).0).0,
        gunzipped(bytes).1 is None ==> tar_gz_listing(bytes) == tar_listing(gunzipped(bytes).0),
        gunzipped(bytes).1 is Some ==> tar_gz_listing(bytes).1 == gunzipped(bytes).1
            || tar_gz_listing(bytes) == tar_listing(gunzipped(bytes).0),
        gunzipped(bytes).1 is Some && walkable(gunzipped(bytes).0) && tar_walk(
            with_zeros(gunzipped(bytes).0),
        ).2 < 512 ==> tar_gz_listing(bytes).1 == gunzipped(bytes).1,
{
}

} // verus!

//! Building a read-only squashfs image from a flattened root file system tree.
//!
//! The image is built by `mksquashfs`, whose path the caller gives, so that
//! the build is reproducible and does not depend on `$PATH`.

use crate::fault::{fault_is, Fault, FaultKind};
use crate::path::{
    byte_lists, copy_bytes, encoded, lossy_text, parent_path, path_opt, text_from_utf8_lossy,
    UnixPath,
};
use crate::text::{concat, lemma_occurs, occurs_in, owned, texts, trim, trimmed};
use vstd::prelude::*;
use vstd::utf8::*;

verus! {

/// Compression algorithm of a squashfs image. `zstd` is the default: it has
/// the best tradeoff between decompression speed and ratio for cold starts.
#[derive(Debug, Clone, Copy, PartialEq, Eq, Structural)]
pub enum Compression {
    Zstd,
    Gzip,
    Xz,
}

impl Compression {
    /// The algorithm as `mksquashfs` names it, as text.
    pub open spec fn tag(self) -> Seq<char> {
        match self {
            Compression::Zstd => "zstd"@,
            Compression::Gzip => "gzip"@,
            Compression::Xz => "xz"@,
        }
    }

    /// The algorithm as `mksquashfs` names it.
    pub fn as_str(self) -> (r: &'static str)
        ensures
            r@ == self.tag(),
    {
        match self {
            Compression::Zstd => "zstd",
            Compression::Gzip => "gzip",
            Compression::Xz => "xz",
        }
    }
}

/// Options of a build.
#[derive(Debug)]
pub struct BuildOptions {
    /// Path of the `mksquashfs` binary.
    pub mksquashfs: UnixPath,
    /// Compression algorithm passed with `-comp`.
    pub compression: Compression,
    /// Extra flags forwarded verbatim (e.g. `-no-xattrs`).
    pub extra_args: Vec<String>,
}

impl BuildOptions {
    /// The default options for a given binary.
    pub fn with_binary(mksquashfs: UnixPath) -> (r: BuildOptions)
        ensures
            r.mksquashfs == mksquashfs,
            r.compression == Compression::Zstd,
            r.extra_args@.len() == 0,
    {
        BuildOptions { mksquashfs, compression: Compression::Zstd, extra_args: Vec::new() }
    }
}

/// What stands where a build looks.
#[derive(Debug, Clone, Copy, PartialEq, Eq, Structural)]
pub struct BuildFacts {
    /// The binary is a file.
    pub binary_is_file: bool,
    /// The source is a directory.
    pub source_is_dir: bool,
    /// Something stands at the destination.
    pub dest_exists: bool,
}

/// What a build does: remove the file at the destination, create the directory
/// above it, and run the program with the arguments.
#[derive(Debug)]
pub struct BuildPlan {
    pub remove: Option<UnixPath>,
    pub create: Option<UnixPath>,
    pub program: UnixPath,
    pub args: Vec<Vec<u8>>,
}

/// The arguments of `mksquashfs`.
pub open spec fn build_args(
    source: Seq<u8>,
    dest: Seq<u8>,
    compression: Compression,
    extra: Seq<Seq<char>>,
) -> Seq<Seq<u8>> {
    seq![
        source,
        dest,
        encode_utf8("-noappend"@),
        encode_utf8("-quiet"@),
        encode_utf8("-comp"@),
        encode_utf8(compression.tag()),
    ] + encoded(extra)
}

/// Whether `r` is how a tree is packed, or why it is not.
pub open spec fn planned(
    source: Seq<u8>,
    dest: Seq<u8>,
    options: BuildOptions,
    facts: BuildFacts,
    r: Result<BuildPlan, Fault>,
) -> bool {
    match r {
        Err(e) => if !facts.binary_is_file {
            fault_is(
                e,
                FaultKind::NotFound,
                "mksquashfs binary not found at "@ + lossy_text(options.mksquashfs@),
            )
        } else {
            !facts.source_is_dir && fault_is(
                e,
                FaultKind::NotFound,
                "source tree not found at "@ + lossy_text(source),
            )
        },
        Ok(plan) => {
            &&& facts.binary_is_file && facts.source_is_dir
            &&& path_opt(plan.remove) == (if facts.dest_exists {
                Some(dest)
            } else {
                None
            })
            &&& path_opt(plan.create) == parent_path(dest)
            &&& plan.program@ == options.mksquashfs@
            &&& byte_lists(plan.args@) == build_args(
                source,
                dest,
                options.compression,
                texts(options.extra_args@),
            )
        },
    }
}

/// What building `dest` from `source_dir` does, or why it cannot begin: the
/// binary or the source tree is missing.
pub fn build(
    source_dir: &UnixPath,
    dest: &UnixPath,
    options: &BuildOptions,
    facts: BuildFacts,
) -> (r: Result<BuildPlan, Fault>)
    ensures
        planned(source_dir@, dest@, *options, facts, r),
{
    if !facts.binary_is_file {
        return Err(
            Fault {
                kind: FaultKind::NotFound,
                message: concat(
                    "mksquashfs binary not found at ",
                    options.mksquashfs.display().as_str(),
                ),
            },
        );
    }
    if !facts.source_is_dir {
        return Err(
            Fault {
                kind: FaultKind::NotFound,
                message: concat("source tree not found at ", source_dir.display().as_str()),
            },
        );
    }
    let mut args: Vec<Vec<u8>> = Vec::new();
    args.push(copy_bytes(&source_dir.bytes));
    args.push(copy_bytes(&dest.bytes));
    args.push("-noappend".as_bytes_vec());
    args.push("-quiet".as_bytes_vec());
    args.push("-comp".as_bytes_vec());
    args.push(options.compression.as_str().as_bytes_vec());
    let ghost fixed = byte_lists(args@);
    let ghost extra = encoded(texts(options.extra_args@));
    let mut i: usize = 0;
    assert(fixed + extra.take(0) =~= fixed);
    while i < options.extra_args.len()
        invariant
            i <= options.extra_args.len(),
            extra == encoded(texts(options.extra_args@)),
            byte_lists(args@) == fixed + extra.take(i as int),
        decreases options.extra_args.len() - i,
    {
        let ghost before = args@;
        args.push(options.extra_args[i].as_str().as_bytes_vec());
        assert(byte_lists(args@) =~= byte_lists(before).push(extra[i as int]));
        assert(extra.take(i + 1) =~= extra.take(i as int).push(extra[i as int]));
        assert(byte_lists(args@) =~= fixed + extra.take(i + 1));
        i = i + 1;
    }
    assert(extra.take(i as int) =~= extra);
    assert(byte_lists(args@) =~= build_args(
        source_dir@,
        dest@,
        options.compression,
        texts(options.extra_args@),
    ));
    Ok(
        BuildPlan {
            remove: if facts.dest_exists {
                Some(dest.clone())
            } else {
                None
            },
            create: dest.parent(),
            program: options.mksquashfs.clone(),
            args,
        },
    )
}

/// How a run of `mksquashfs` ended.
#[derive(Debug)]
pub enum BuildRun {
    /// The program could not be started.
    SpawnFailed { error: String },
    /// The program ended.
    Ended { success: bool, status: String, stderr: Vec<u8> },
}

/// Whether `r` is what a run of `mksquashfs` means.
pub open spec fn build_ends(options: BuildOptions, run: BuildRun, r: Result<(), Fault>) -> bool {
    match run {
        BuildRun::SpawnFailed { error } => r matches Err(e) && fault_is(
            e,
            FaultKind::Other,
            "spawn mksquashfs "@ + lossy_text(options.mksquashfs@) + ": "@ + error@,
        ),
        BuildRun::Ended { success, status, stderr } => if success {
            r is Ok
        } else {
            r matches Err(e) && fault_is(
                e,
                FaultKind::Other,
                "mksquashfs failed (status "@ + status@ + "): "@ + trimmed(lossy_text(stderr@)),
            )
        },
    }
}

/// Whether a run of `mksquashfs` has built the image.
pub fn build_outcome(options: &BuildOptions, run: &BuildRun) -> (r: Result<(), Fault>)
    ensures
        build_ends(*options, *run, r),
{
    match run {
        BuildRun::SpawnFailed { error } => {
            let mut message: String = owned("spawn mksquashfs ");
            message.append(options.mksquashfs.display().as_str());
            message.append(": ");
            message.append(error.as_str());
            Err(Fault { kind: FaultKind::Other, message })
        },
        BuildRun::Ended { success, status, stderr } => {
            if *success {
                return Ok(());
            }
            let text: String = text_from_utf8_lossy(stderr);
            let mut message: String = owned("mksquashfs failed (status ");
            message.append(status.as_str());
            message.append("): ");
            message.append(trim(text.as_str()));
            Err(Fault { kind: FaultKind::Other, message })
        },
    }
}

// ---------------------------------------------------------------------
// Laws
// ---------------------------------------------------------------------
/// A tree is packed from its source into its destination: `mksquashfs` gets the
/// source first and the destination second, never appends to an image that is
/// there, uses the chosen compression, and gets every extra flag whole, in order,
/// behind the rest.
pub proof fn law_build_args(
    source: Seq<u8>,
    dest: Seq<u8>,
    compression: Compression,
    extra: Seq<Seq<char>>,
)
    ensures
        ({
            let args = build_args(source, dest, compression, extra);
            &&& args.len() == 6 + extra.len()
            &&& args[0] == source
            &&& args[1] == dest
            &&& args.take(6).contains(encode_utf8("-noappend"@))
            &&& args.take(6).contains(encode_utf8("-quiet"@))
            &&& exists|i: int|
                2 <= i < 5 && #[trigger] args[i] == encode_utf8("-comp"@) && args[i + 1]
                    == encode_utf8(
                    match compression {
                        Compression::Zstd => "zstd"@,
                        Compression::Gzip => "gzip"@,
                        Compression::Xz => "xz"@,
                    },
                )
            &&& forall|k: int|
                0 <= k < extra.len() ==> args[k + 6] == encode_utf8(#[trigger] extra[k])
        }),
{
    let args = build_args(source, dest, compression, extra);
    assert(args.take(6)[2] == encode_utf8("-noappend"@));
    assert(args.take(6)[3] == encode_utf8("-quiet"@));
    assert(args[4] == encode_utf8("-comp"@));
}

/// A tree is packed exactly where the binary is a file and the source is a
/// directory; what stands at the destination is removed first, and its directory
/// is created. Else the text ends with the path that is missing, the binary's
/// first.
pub proof fn law_build_plan(
    source: Seq<u8>,
    dest: Seq<u8>,
    options: BuildOptions,
    facts: BuildFacts,
    r: Result<BuildPlan, Fault>,
)
    requires
        planned(source, dest, options, facts, r),
    ensures
        r is Ok <==> facts.binary_is_file && facts.source_is_dir,
        r matches Ok(plan) ==> {
            &&& plan.program@ == options.mksquashfs@
            &&& plan.remove matches Some(path) ==> path@ == dest && facts.dest_exists
            &&& plan.remove is None ==> !facts.dest_exists
            &&& path_opt(plan.create) == parent_path(dest)
            &&& plan.args@.len() == 6 + options.extra_args@.len()
            &&& plan.args@[0]@ == source
            &&& plan.args@[1]@ == dest
            &&& exists|i: int|
                2 <= i < 5 && #[trigger] plan.args@[i]@ == encode_utf8("-comp"@) && plan.args@[i
                    + 1]@ == encode_utf8(
                    match options.compression {
                        Compression::Zstd => "zstd"@,
                        Compression::Gzip => "gzip"@,
                        Compression::Xz => "xz"@,
                    },
                )
            &&& forall|k: int|
                0 <= k < options.extra_args@.len() ==> plan.args@[k + 6]@ == encode_utf8(
                    (#[trigger] options.extra_args@[k])@,
                )
        },
        r matches Err(e) ==> e.kind == FaultKind::NotFound && (if !facts.binary_is_file {
            lossy_text(options.mksquashfs@).is_suffix_of(e.message@)
        } else {
            lossy_text(source).is_suffix_of(e.message@)
        }),
{
    match r {
        Ok(plan) => {
            let extra = texts(options.extra_args@);
            law_build_args(source, dest, options.compression, extra);
            let args = byte_lists(plan.args@);
            assert(args.len() == plan.args@.len());
            assert(args[0] == plan.args@[0]@);
            assert(args[1] == plan.args@[1]@);
            assert(args[4] == plan.args@[4]@);
            assert(args[5] == plan.args@[5]@);
            assert forall|k: int| 0 <= k < options.extra_args@.len() implies plan.args@[k + 6]@
                == encode_utf8((#[trigger] options.extra_args@[k])@) by {
                assert(args[k + 6] == encode_utf8(extra[k]));
            }
        },
        Err(e) => {
            let a = lossy_text(options.mksquashfs@);
            let b = lossy_text(source);
            let t = e.message@;
            if !facts.binary_is_file {
                assert(a =~= t.subrange(t.len() - a.len(), t.len() as int));
            } else {
                assert(b =~= t.subrange(t.len() - b.len(), t.len() as int));
            }
        },
    }
}

/// A run of `mksquashfs` counts exactly where it ended with success; else the
/// text ends with the reason, or with what it wrote to its error stream.
pub proof fn law_build_outcome(options: BuildOptions, run: BuildRun, r: Result<(), Fault>)
    requires
        build_ends(options, run, r),
    ensures
        r is Ok <==> (run matches BuildRun::Ended { success, .. } && success),
        r matches Err(e) ==> (match run {
            BuildRun::SpawnFailed { error } => error@.is_suffix_of(e.message@) && occurs_in(
                lossy_text(options.mksquashfs@),
                e.message@,
            ),
            BuildRun::Ended { status, stderr, .. } => trimmed(lossy_text(stderr@)).is_suffix_of(
                e.message@,
            ) && occurs_in(status@, e.message@),
        }),
{
    match (run, r) {
        (BuildRun::SpawnFailed { error }, Err(e)) => {
            let t = e.message@;
            let path = lossy_text(options.mksquashfs@);
            assert(error@ =~= t.subrange(t.len() - error@.len(), t.len() as int));
            assert(t =~= "spawn mksquashfs "@ + path + (": "@ + error@));
            lemma_occurs("spawn mksquashfs "@, path, ": "@ + error@);
        },
        (BuildRun::Ended { status, stderr, .. }, Err(e)) => {
            let t = e.message@;
            let told = trimmed(lossy_text(stderr@));
            assert(told =~= t.subrange(t.len() - told.len(), t.len() as int));
            assert(t =~= "mksquashfs failed (status "@ + status@ + ("): "@ + told));
            lemma_occurs("mksquashfs failed (status "@, status@, "): "@ + told);
        },
        _ => {},
    }
}

} // verus!

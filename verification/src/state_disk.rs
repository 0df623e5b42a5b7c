//! State disks and import sockets of sandboxes.
//!
//! A sandbox has a sparse raw disk for its state and a Unix socket over which
//! its payload is imported once. The rules below decide on plain facts about
//! files: owner, permission bits, whether a path is a symbolic link.

use crate::fault::{fault_is, Fault, FaultKind};
use crate::path::{
    components, join_text, law_join_adds_a_step, law_parent_drops_last_step, lemma_ascii_bytes,
    lossy_text, parent_path, path_opt, Part, UnixPath,
};
use crate::text::{
    concat3, decimal, decimal_text, lemma_occurs, occurs_in, octal, octal_text, owned,
};
use vstd::prelude::*;
use vstd::utf8::*;

verus! {

/// Size of a state disk where none was asked for: 16 GiB. The disk is sparse;
/// only what is written takes space.
pub const DEFAULT_STATE_DISK_SIZE_BYTES: u64 = 17_179_869_184;

/// Block id by which the guest init finds the state disk.
pub const STATE_DISK_BLOCK_ID: &'static str = "sandbox-state";

/// vsock port of the one-shot payload import.
pub const IMPORT_VSOCK_PORT: u32 = 10778;

/// Port on which the guest serves SSH.
pub const GUEST_SSH_PORT: u16 = 2222;

/// Where the state disk and the import socket of a sandbox stand.
#[derive(Debug)]
pub struct SandboxStatePaths {
    /// Raw sparse disk image attached to the VM.
    pub state_disk: UnixPath,
    /// Unix socket of the host, bridged to the guest on [`IMPORT_VSOCK_PORT`].
    pub import_socket: UnixPath,
}

impl Clone for SandboxStatePaths {
    fn clone(&self) -> (r: Self)
        ensures
            r.state_disk@ == self.state_disk@,
            r.import_socket@ == self.import_socket@,
    {
        SandboxStatePaths {
            state_disk: self.state_disk.clone(),
            import_socket: self.import_socket.clone(),
        }
    }
}

/// Where the state disk of a sandbox stands.
pub open spec fn disk_file(state_dir: Seq<u8>) -> Seq<u8> {
    join_text(state_dir, "sandbox-state.raw"@)
}

/// Where the import socket of a sandbox stands.
pub open spec fn socket_file(state_dir: Seq<u8>) -> Seq<u8> {
    join_text(state_dir, "oci-import.sock"@)
}

impl SandboxStatePaths {
    /// The paths below a state directory.
    pub fn for_state_dir(state_dir: &UnixPath) -> (r: SandboxStatePaths)
        ensures
            r.state_disk@ == disk_file(state_dir@),
            r.import_socket@ == socket_file(state_dir@),
    {
        SandboxStatePaths {
            state_disk: state_dir.join("sandbox-state.raw"),
            import_socket: state_dir.join("oci-import.sock"),
        }
    }
}

// ---------------------------------------------------------------------
// State disk
// ---------------------------------------------------------------------
/// What brings a state disk to its size: the directory to create, the file to
/// open or create without truncating it, and the length to set.
#[derive(Debug)]
pub struct DiskPlan {
    pub create: Option<UnixPath>,
    pub open: UnixPath,
    pub set_len: Option<u64>,
}

/// The length of a disk after it was brought to a size.
pub open spec fn disk_len(current: u64, size_bytes: u64) -> u64 {
    if current < size_bytes {
        size_bytes
    } else {
        current
    }
}

/// Whether a plan opens the disk, in a directory that is there, and grows it where
/// it is too short.
pub open spec fn disk_planned(path: Seq<u8>, size_bytes: u64, current: u64, plan: DiskPlan) -> bool {
    &&& path_opt(plan.create) == parent_path(path)
    &&& plan.open@ == path
    &&& plan.set_len == (if current < size_bytes {
        Some(size_bytes)
    } else {
        None
    })
}

/// Creates the sparse state disk, or grows it to size. `current` is the length
/// of the file once it is open: zero for a new one.
pub fn ensure_state_disk(path: &UnixPath, size_bytes: u64, current: u64) -> (r: DiskPlan)
    ensures
        disk_planned(path@, size_bytes, current, r),
{
    DiskPlan {
        create: path.parent(),
        open: path.clone(),
        set_len: if current < size_bytes {
            Some(size_bytes)
        } else {
            None
        },
    }
}

/// A state disk grows but never shrinks, and brought to a size once it stays as
/// it is when brought to that size again.
pub proof fn law_disk_never_shrinks(current: u64, size_bytes: u64)
    ensures
        disk_len(current, size_bytes) >= current,
        disk_len(current, size_bytes) >= size_bytes,
        disk_len(current, size_bytes) == current || disk_len(current, size_bytes) == size_bytes,
        disk_len(disk_len(current, size_bytes), size_bytes) == disk_len(current, size_bytes),
{
}

// ---------------------------------------------------------------------
// Import socket
// ---------------------------------------------------------------------
/// What is known of a path without following a symbolic link at its end.
#[derive(Debug, Clone, Copy, PartialEq, Eq, Structural)]
pub struct NodeFacts {
    pub is_symlink: bool,
    pub uid: u32,
    pub mode: u32,
}

/// The permission bits of a mode.
pub open spec fn permission_bits(mode: u32) -> u32 {
    mode & 0o777u32
}

/// Whether a mode lets nobody but the owner in.
pub open spec fn private_mode(mode: u32) -> bool {
    permission_bits(mode) & 0o077u32 == 0
}

/// The text that a path belongs to somebody else.
pub open spec fn owner_text(path: Seq<u8>, owner: u32, uid: u32) -> Seq<char> {
    lossy_text(path) + " is owned by uid "@ + decimal(owner as nat) + " but we are uid "@ + decimal(
        uid as nat,
    )
}

/// The text that a path lets others in. `what` says what the path is.
pub open spec fn mode_text(what: Seq<char>, path: Seq<u8>, mode: u32) -> Seq<char> {
    what + lossy_text(path) + " has permissions "@ + octal(permission_bits(mode) as nat)
        + "; expected 0700"@
}

/// The text that a path is a symbolic link. `what` says what the path is.
pub open spec fn symlink_text(what: Seq<char>, path: Seq<u8>) -> Seq<char> {
    what + lossy_text(path) + " is a symlink; refusing to use it"@
}

/// Whether a path is trusted by `uid`, and if not, why: it is a symbolic link,
/// it belongs to somebody else, or it lets others in.
pub open spec fn trust(
    what: Seq<char>,
    path: Seq<u8>,
    facts: NodeFacts,
    uid: u32,
) -> Option<Seq<char>> {
    if facts.is_symlink {
        Some(symlink_text(what, path))
    } else if facts.uid != uid {
        Some(owner_text(path, facts.uid, uid))
    } else if !private_mode(facts.mode) {
        Some(mode_text(what, path, facts.mode))
    } else {
        None
    }
}

/// Whether a result is decided by `text`: success where there is no text, else a
/// failure with that text.
pub open spec fn decided<T>(r: Result<T, Fault>, text: Option<Seq<char>>) -> bool {
    match text {
        Some(t) => r matches Err(e) && fault_is(e, FaultKind::Other, t),
        None => r is Ok,
    }
}

fn other(message: String) -> (r: Fault)
    ensures
        fault_is(r, FaultKind::Other, message@),
{
    Fault { kind: FaultKind::Other, message }
}

/// Checks that a path belongs to `uid`.
pub fn check_owner(path: &UnixPath, facts: NodeFacts, uid: u32) -> (r: Result<(), Fault>)
    ensures
        decided(
            r,
            if facts.uid != uid {
                Some(owner_text(path@, facts.uid, uid))
            } else {
                None
            },
        ),
{
    if facts.uid != uid {
        let mut message: String = path.display();
        message.append(" is owned by uid ");
        message.append(decimal_text(facts.uid as u64).as_str());
        message.append(" but we are uid ");
        message.append(decimal_text(uid as u64).as_str());
        return Err(other(message));
    }
    Ok(())
}

/// Checks that a path belongs to `uid` and lets nobody else in.
pub fn check_owner_and_mode(what: &str, path: &UnixPath, facts: NodeFacts, uid: u32) -> (r: Result<
    (),
    Fault,
>)
    ensures
        decided(
            r,
            trust(what@, path@, NodeFacts { is_symlink: false, uid: facts.uid, mode: facts.mode }, uid),
        ),
{
    match check_owner(path, facts, uid) {
        Ok(_) => {},
        Err(e) => {
            return Err(e);
        },
    }
    let mode: u32 = facts.mode & 0o777;
    if mode & 0o077 != 0 {
        let mut message: String = owned(what);
        message.append(path.display().as_str());
        message.append(" has permissions ");
        message.append(octal_text(mode as u64).as_str());
        message.append("; expected 0700");
        return Err(other(message));
    }
    Ok(())
}

fn check_trust(what: &str, path: &UnixPath, facts: NodeFacts, uid: u32) -> (r: Result<(), Fault>)
    ensures
        decided(r, trust(what@, path@, facts, uid)),
{
    if facts.is_symlink {
        return Err(
            other(concat3(what, path.display().as_str(), " is a symlink; refusing to use it")),
        );
    }
    check_owner_and_mode(what, path, facts, uid)
}

/// Permission bits of the directory of an import socket.
pub const SOCKET_DIR_MODE: u32 = 0o700;

/// What prepares the directory of an import socket.
#[derive(Debug)]
pub struct SocketPlan {
    /// The directory to create, where it is missing.
    pub create: Option<UnixPath>,
    /// The permission bits that a created directory gets, whatever the umask.
    pub mode: u32,
    /// The stale socket to remove, where there is one.
    pub remove: UnixPath,
}

/// Why the directory of an import socket must not be used, if so. `dir` is
/// what is known of it; nothing, where it is missing.
pub open spec fn socket_dir_refusal(
    socket: Seq<u8>,
    dir: Option<NodeFacts>,
    uid: u32,
) -> Option<Seq<char>> {
    match parent_path(socket) {
        None => Some("import socket path has no parent directory"@),
        Some(parent) => match dir {
            Some(facts) => trust("import socket directory "@, parent, facts, uid),
            None => None,
        },
    }
}

/// Whether a plan removes what stands at the socket's path, and creates its
/// directory for the owner alone where it is not there.
pub open spec fn socket_planned(socket: Seq<u8>, dir_exists: bool, plan: SocketPlan) -> bool {
    plan.remove@ == socket && plan.mode == SOCKET_DIR_MODE && path_opt(plan.create) == (
    if dir_exists {
        None
    } else {
        parent_path(socket)
    })
}

/// Prepares the directory of the import socket and removes a stale socket.
///
/// A missing directory is created with `0700`. One that is there must not be a
/// symbolic link and must belong to the current uid alone, else it is refused:
/// a tampered path would let somebody else put a socket there before the VM
/// connects.
pub fn prepare_import_socket_dir(
    socket_path: &UnixPath,
    dir: Option<NodeFacts>,
    uid: u32,
) -> (r: Result<SocketPlan, Fault>)
    ensures
        decided(r, socket_dir_refusal(socket_path@, dir, uid)),
        r matches Ok(plan) ==> socket_planned(socket_path@, dir is Some, plan),
{
    let parent: UnixPath = match socket_path.parent() {
        Some(parent) => parent,
        None => {
            return Err(other(owned("import socket path has no parent directory")));
        },
    };
    match dir {
        Some(facts) => {
            match check_trust("import socket directory ", &parent, facts, uid) {
                Ok(_) => Ok(
                    SocketPlan {
                        create: None,
                        mode: SOCKET_DIR_MODE,
                        remove: socket_path.clone(),
                    },
                ),
                Err(e) => Err(e),
            }
        },
        None => Ok(
            SocketPlan {
                create: Some(parent),
                mode: SOCKET_DIR_MODE,
                remove: socket_path.clone(),
            },
        ),
    }
}

/// Why an import socket must not be used, if so.
pub open spec fn socket_refusal(
    path: Seq<u8>,
    facts: NodeFacts,
    dir: NodeFacts,
    uid: u32,
) -> Option<Seq<char>> {
    match trust("import socket path "@, path, facts, uid) {
        Some(text) => Some(text),
        None => match parent_path(path) {
            Some(parent) => trust("import socket directory "@, parent, dir, uid),
            None => None,
        },
    }
}

/// Verifies that `path` is no symbolic link, belongs to the current uid and
/// has permission bits of `0700` or stricter, and the same of the directory
/// that it is in. `dir` is what is known of that directory; it plays no role
/// where `path` has none.
pub fn verify_import_socket_path(
    path: &UnixPath,
    facts: NodeFacts,
    dir: NodeFacts,
    uid: u32,
) -> (r: Result<(), Fault>)
    ensures
        decided(r, socket_refusal(path@, facts, dir, uid)),
{
    match check_trust("import socket path ", path, facts, uid) {
        Ok(_) => {},
        Err(e) => {
            return Err(e);
        },
    }
    match path.parent() {
        Some(parent) => check_trust("import socket directory ", &parent, dir, uid),
        None => Ok(()),
    }
}

/// A socket that passes is the current user's own: neither it nor its
/// directory is a symbolic link, both belong to that user, and nobody else has
/// any permission on either.
pub proof fn law_verified_socket_is_own(
    path: Seq<u8>,
    facts: NodeFacts,
    dir: NodeFacts,
    uid: u32,
)
    requires
        parent_path(path) is Some,
    ensures
        socket_refusal(path, facts, dir, uid) is None <==> !facts.is_symlink && facts.uid == uid
            && private_mode(facts.mode) && !dir.is_symlink && dir.uid == uid && private_mode(
            dir.mode,
        ),
{
}

/// A directory made with `0700` passes the check that a later preparation
/// makes.
pub proof fn law_created_dir_is_accepted(socket: Seq<u8>, uid: u32)
    requires
        parent_path(socket) is Some,
    ensures
        socket_dir_refusal(
            socket,
            Some((NodeFacts { is_symlink: false, uid, mode: SOCKET_DIR_MODE })),
            uid,
        ) is None,
{
    assert((0o700u32 & 0o777u32) & 0o077u32 == 0) by (bit_vector);
}

/// A sandbox has its state in its own directory: the disk and the socket are two
/// files of it, so sandboxes with different directories share neither.
pub proof fn law_sandbox_files(state_dir: Seq<u8>, other_dir: Seq<u8>)
    ensures
        components(disk_file(state_dir)) == components(state_dir).push(
            Part::Name(encode_utf8("sandbox-state.raw"@)),
        ),
        components(socket_file(state_dir)) == components(state_dir).push(
            Part::Name(encode_utf8("oci-import.sock"@)),
        ),
        disk_file(state_dir) != socket_file(state_dir),
        components(state_dir) != components(other_dir) ==> disk_file(state_dir) != disk_file(
            other_dir,
        ) && socket_file(state_dir) != socket_file(other_dir),
        parent_path(socket_file(state_dir)) matches Some(dir) && components(dir) == components(
            state_dir,
        ),
{
    reveal_strlit("sandbox-state.raw");
    reveal_strlit("oci-import.sock");
    law_join_adds_a_step(state_dir, "sandbox-state.raw"@);
    law_join_adds_a_step(state_dir, "oci-import.sock"@);
    law_join_adds_a_step(other_dir, "sandbox-state.raw"@);
    law_join_adds_a_step(other_dir, "oci-import.sock"@);
    let a = Part::Name(encode_utf8("sandbox-state.raw"@));
    let b = Part::Name(encode_utf8("oci-import.sock"@));
    let here = components(state_dir);
    let there = components(other_dir);
    lemma_ascii_bytes("sandbox-state.raw"@);
    lemma_ascii_bytes("oci-import.sock"@);
    assert(here.push(a).last() == a && here.push(b).last() == b);
    assert(here.push(a).drop_last() =~= here && here.push(b).drop_last() =~= here);
    assert(there.push(a).drop_last() =~= there && there.push(b).drop_last() =~= there);
    law_parent_drops_last_step(socket_file(state_dir));
    assert(seq![Part::<Seq<u8>>::Root].last() is Root);
}

/// What carrying out a plan makes of a disk: it is as long as was asked for where
/// it was shorter, and untouched else; and it is the disk that was asked for.
pub proof fn law_disk_plan(path: Seq<u8>, size_bytes: u64, current: u64, plan: DiskPlan)
    requires
        disk_planned(path, size_bytes, current, plan),
    ensures
        plan.open@ == path,
        (match plan.set_len {
            Some(n) => n,
            None => current,
        }) == (if size_bytes > current {
            size_bytes
        } else {
            current
        }),
        plan.set_len matches Some(n) ==> n > current,
        plan.create matches Some(dir) ==> components(dir@) == components(path).drop_last(),
        plan.create is None ==> components(path).len() == 0 || components(path) == seq![
            Part::<Seq<u8>>::Root,
        ],
{
    law_parent_drops_last_step(path);
}

/// Which permission bits are private: none for the group and none for others;
/// what the owner may do, and the bits beyond the nine, have no say.
pub proof fn law_private_mode(mode: u32)
    ensures
        private_mode(mode) <==> mode & 0o070u32 == 0 && mode & 0o007u32 == 0,
        private_mode(0o700),
        !private_mode(mode | 0o010u32),
        !private_mode(mode | 0o001u32),
        permission_bits(mode) < 0o1000,
{
    assert(((mode & 0o777u32) & 0o077u32 == 0) <==> (mode & 0o070u32 == 0 && mode & 0o007u32 == 0))
        by (bit_vector);
    assert((0o700u32 & 0o777u32) & 0o077u32 == 0) by (bit_vector);
    assert(((mode | 0o010u32) & 0o777u32) & 0o077u32 != 0) by (bit_vector);
    assert(((mode | 0o001u32) & 0o777u32) & 0o077u32 != 0) by (bit_vector);
    assert((mode & 0o777u32) < 0o1000u32) by (bit_vector);
}

/// What is trusted: a path that is no symbolic link, belongs to the user, and
/// is private. A refusal names the path and what is wrong with it: a link before
/// a foreign owner, with both user ids, and that before the permission bits.
pub proof fn law_trust(what: Seq<char>, path: Seq<u8>, facts: NodeFacts, uid: u32)
    ensures
        trust(what, path, facts, uid) is None <==> !facts.is_symlink && facts.uid == uid
            && private_mode(facts.mode),
        trust(what, path, facts, uid) matches Some(text) ==> occurs_in(lossy_text(path), text) && (
        if facts.is_symlink {
            " is a symlink; refusing to use it"@.is_suffix_of(text)
        } else if facts.uid != uid {
            occurs_in(decimal(facts.uid as nat), text) && decimal(uid as nat).is_suffix_of(text)
        } else {
            occurs_in(octal(permission_bits(facts.mode) as nat), text)
        }),
{
    let shown = lossy_text(path);
    if facts.is_symlink {
        let t = symlink_text(what, path);
        let end = " is a symlink; refusing to use it"@;
        lemma_occurs(what, shown, end);
        assert(end =~= t.subrange(t.len() - end.len(), t.len() as int));
    } else if facts.uid != uid {
        let t = owner_text(path, facts.uid, uid);
        let a = decimal(facts.uid as nat);
        let b = decimal(uid as nat);
        let rest = " is owned by uid "@ + a + " but we are uid "@ + b;
        assert(t =~= Seq::<char>::empty() + shown + rest);
        lemma_occurs(Seq::<char>::empty(), shown, rest);
        assert(t =~= (shown + " is owned by uid "@) + a + (" but we are uid "@ + b));
        lemma_occurs(shown + " is owned by uid "@, a, " but we are uid "@ + b);
        assert(b =~= t.subrange(t.len() - b.len(), t.len() as int));
    } else {
        let t = mode_text(what, path, facts.mode);
        let o = octal(permission_bits(facts.mode) as nat);
        let rest = " has permissions "@ + o + "; expected 0700"@;
        assert(t =~= what + shown + rest);
        lemma_occurs(what, shown, rest);
        assert(t =~= (what + shown + " has permissions "@) + o + "; expected 0700"@);
        lemma_occurs(what + shown + " has permissions "@, o, "; expected 0700"@);
    }
}

/// When the directory of a socket is used: it can be told from the path, and
/// what stands there, if anything, is the user's own private directory and no
/// link. It is created, with the bits `0700`, exactly where nothing stands
/// there; and the stale socket that goes is the one at the socket's path.
pub proof fn law_socket_dir(
    socket: Seq<u8>,
    dir: Option<NodeFacts>,
    uid: u32,
    plan: SocketPlan,
)
    requires
        socket_planned(socket, dir is Some, plan),
    ensures
        socket_dir_refusal(socket, dir, uid) is None <==> parent_path(socket) is Some && (
        dir matches Some(facts) ==> !facts.is_symlink && facts.uid == uid && private_mode(
            facts.mode,
        )),
        plan.remove@ == socket,
        plan.mode == 0o700,
        dir is Some ==> plan.create is None,
        dir is None && parent_path(socket) is Some ==> (plan.create matches Some(made)
            && components(made@) == components(socket).drop_last()),
{
    law_parent_drops_last_step(socket);
}

/// A refusal is about what is at fault: about the socket where that is not
/// trusted, else about its directory, and the text names that one.
pub proof fn law_socket_refusal_names_it(
    path: Seq<u8>,
    facts: NodeFacts,
    dir: NodeFacts,
    uid: u32,
    text: Seq<char>,
)
    requires
        socket_refusal(path, facts, dir, uid) == Some(text),
    ensures
        if facts.is_symlink || facts.uid != uid || !private_mode(facts.mode) {
            occurs_in(lossy_text(path), text)
        } else {
            parent_path(path) matches Some(parent) && occurs_in(lossy_text(parent), text)
        },
        socket_dir_refusal(path, Some(dir), uid) matches Some(t) ==> (parent_path(path) matches
            Some(parent) ==> occurs_in(lossy_text(parent), t)),
{
    law_trust("import socket path "@, path, facts, uid);
    match parent_path(path) {
        Some(parent) => {
            law_trust("import socket directory "@, parent, dir, uid);
        },
        None => {},
    }
}

/// A decision is a success without a text, and a failure with it.
pub proof fn law_decided(r: Result<(), Fault>, text: Seq<char>)
    ensures
        decided(r, None) <==> r is Ok,
        decided(r, Some(text)) <==> (r matches Err(e) && e.kind == FaultKind::Other && e.message@
            == text),
{
}

} // verus!

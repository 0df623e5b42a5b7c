//! Compatibility files for a flattened root file system tree.
//!
//! Runs after the layers were applied and before the file system image is
//! built, so that the sandbox user and its directories are part of the
//! read-only base image.

use crate::path::{
    components, join_text, law_join_adds_two_steps, lemma_ascii_bytes, parent_path, Part, UnixPath,
};
use crate::text::{
    any_line_starts_with, concat, decimal, decimal_text, ends_with, has_line, line_begins, owned,
};
use vstd::prelude::*;
use vstd::utf8::*;

verus! {

/// User id of the sandbox user.
pub const SANDBOX_UID: u32 = 10001;

/// Group id of the sandbox group.
pub const SANDBOX_GID: u32 = 10001;

/// Name of the sandbox user and of its group.
pub const SANDBOX_USER: &'static str = "sandbox";

/// Which of the candidate shells the tree holds.
#[derive(Debug, Clone, Copy, PartialEq, Eq, Structural)]
pub struct ShellFacts {
    pub bin_sh: bool,
    pub sbin_nologin: bool,
    pub usr_sbin_nologin: bool,
    pub bin_false: bool,
}

/// The shell of the sandbox user.
pub open spec fn shell_for(facts: ShellFacts) -> Seq<char> {
    if facts.bin_sh {
        "/bin/sh"@
    } else if facts.sbin_nologin {
        "/sbin/nologin"@
    } else if facts.bin_false {
        "/bin/false"@
    } else if facts.usr_sbin_nologin {
        "/usr/sbin/nologin"@
    } else {
        "/sbin/nologin"@
    }
}

/// Picks the best shell for the sandbox user.
///
/// Prefers `/bin/sh` where it is present; falls back to `/sbin/nologin`, then to
/// `/bin/false`, then to `/usr/sbin/nologin`. Where none is there it is
/// `/sbin/nologin`, so the user entry has a valid shell field even in a minimal
/// image.
pub fn pick_shell(facts: ShellFacts) -> (r: String)
    ensures
        r@ == shell_for(facts),
{
    if facts.bin_sh {
        owned("/bin/sh")
    } else if facts.sbin_nologin {
        owned("/sbin/nologin")
    } else if facts.bin_false {
        owned("/bin/false")
    } else if facts.usr_sbin_nologin {
        owned("/usr/sbin/nologin")
    } else {
        owned("/sbin/nologin")
    }
}

/// The line of the user database for the sandbox user.
pub open spec fn passwd_line(shell: Seq<char>) -> Seq<char> {
    SANDBOX_USER@ + ":x:"@ + decimal(SANDBOX_UID as nat) + ":"@ + decimal(SANDBOX_GID as nat)
        + ":OpenShell Sandbox:/sandbox:"@ + shell + "\n"@
}

/// The line of the group database for the sandbox group.
pub open spec fn group_line() -> Seq<char> {
    SANDBOX_USER@ + ":x:"@ + decimal(SANDBOX_GID as nat) + ":\n"@
}

/// Whether the entry of `key` is in a colon-delimited database.
pub open spec fn has_entry(db: Seq<char>, key: Seq<char>) -> bool {
    has_line(db, key + ":"@)
}

/// A database with `entry` behind its last line.
pub open spec fn with_entry(db: Seq<char>, entry: Seq<char>) -> Seq<char> {
    if db.len() > 0 && db.last() != '\n' {
        db + "\n"@ + entry
    } else {
        db + entry
    }
}

/// The new contents of the colon-delimited database `existing` with `entry`
/// appended; `None`, for no change, where a line already starts with `key:`.
pub fn append_user_db_entry(existing: &str, key: &str, entry: &str) -> (r: Option<String>)
    ensures
        match r {
            None => has_entry(existing@, key@),
            Some(contents) => !has_entry(existing@, key@) && contents@ == with_entry(
                existing@,
                entry@,
            ),
        },
{
    let prefix: String = concat(key, ":");
    if any_line_starts_with(existing, prefix.as_str()) {
        return None;
    }
    let mut combined: String = owned(existing);
    let empty: bool = crate::text::chars_of(existing).len() == 0;
    proof {
        reveal_strlit("\n");
        if existing@.len() > 0 {
            let n = existing@.len() as int;
            assert(existing@.subrange(n - 1, n)[0] == existing@.last());
            if existing@.last() == '\n' {
                assert(existing@.subrange(n - 1, n) =~= "\n"@);
            }
        }
    }
    if !empty && !ends_with(existing, "\n") {
        combined.append("\n");
    }
    combined.append(entry);
    Some(combined)
}

/// A change to the tree.
#[derive(Debug, PartialEq, Eq)]
pub enum TreeStep {
    /// Create a directory and the directories above it, where they are missing.
    CreateDirAll { path: UnixPath },
    /// Write a file.
    Write { path: UnixPath, contents: String },
    /// Set the permission bits of a path.
    SetMode { path: UnixPath, mode: u32 },
}

/// The values in a change.
pub enum Change {
    CreateDirAll(Seq<u8>),
    Write(Seq<u8>, Seq<char>),
    SetMode(Seq<u8>, u32),
}

impl View for TreeStep {
    type V = Change;

    open spec fn view(&self) -> Change {
        match *self {
            TreeStep::CreateDirAll { path } => Change::CreateDirAll(path@),
            TreeStep::Write { path, contents } => Change::Write(path@, contents@),
            TreeStep::SetMode { path, mode } => Change::SetMode(path@, mode),
        }
    }
}

/// The values in a list of changes.
pub open spec fn changes(steps: Seq<TreeStep>) -> Seq<Change> {
    Seq::new(steps.len(), |i: int| steps[i]@)
}

/// Creating the directory above a path.
pub open spec fn parent_changes(path: Seq<u8>) -> Seq<Change> {
    match parent_path(path) {
        Some(parent) => seq![Change::CreateDirAll(parent)],
        None => Seq::empty(),
    }
}

/// The changes that bring the entry of `key` into the database at `path`.
pub open spec fn db_changes(
    path: Seq<u8>,
    existing: Seq<char>,
    key: Seq<char>,
    entry: Seq<char>,
) -> Seq<Change> {
    parent_changes(path) + if has_entry(existing, key) {
        Seq::<Change>::empty()
    } else {
        seq![Change::Write(path, with_entry(existing, entry)), Change::SetMode(path, 0o644u32)]
    }
}

/// The changes that give a directory its permission bits, creating it where it
/// is missing.
pub open spec fn dir_changes(path: Seq<u8>, mode: u32, present: bool) -> Seq<Change> {
    if present {
        seq![Change::SetMode(path, mode)]
    } else {
        seq![Change::CreateDirAll(path), Change::SetMode(path, mode)]
    }
}

/// The changes that give a file its permission bits, creating it empty where
/// it is missing.
pub open spec fn empty_file_changes(path: Seq<u8>, mode: u32, present: bool) -> Seq<Change> {
    parent_changes(path) + if present {
        seq![Change::SetMode(path, mode)]
    } else {
        seq![Change::Write(path, ""@), Change::SetMode(path, mode)]
    }
}

fn push_step(steps: &mut Vec<TreeStep>, step: TreeStep)
    ensures
        changes(final(steps)@) == changes(old(steps)@).push(step@),
{
    let ghost before = steps@;
    steps.push(step);
    assert(changes(steps@) =~= changes(before).push(step@));
}

fn push_parent(steps: &mut Vec<TreeStep>, path: &UnixPath)
    ensures
        changes(final(steps)@) == changes(old(steps)@) + parent_changes(path@),
{
    let ghost before = changes(steps@);
    match path.parent() {
        Some(parent) => {
            push_step(steps, TreeStep::CreateDirAll { path: parent });
            assert(changes(steps@) =~= before + parent_changes(path@));
        },
        None => {
            assert(before =~= before + parent_changes(path@));
        },
    }
}

fn push_db_entry(
    steps: &mut Vec<TreeStep>,
    path: &UnixPath,
    existing: &str,
    key: &str,
    entry: &str,
)
    ensures
        changes(final(steps)@) == changes(old(steps)@) + db_changes(
            path@,
            existing@,
            key@,
            entry@,
        ),
{
    let ghost before = changes(steps@);
    push_parent(steps, path);
    match append_user_db_entry(existing, key, entry) {
        Some(contents) => {
            push_step(steps, TreeStep::Write { path: path.clone(), contents });
            push_step(steps, TreeStep::SetMode { path: path.clone(), mode: 0o644 });
        },
        None => {},
    }
    assert(changes(steps@) =~= before + db_changes(path@, existing@, key@, entry@));
}

/// The entry of the sandbox user for the user database of `root`, whose
/// contents are `existing`, empty where there is none.
pub fn ensure_passwd_entry(root: &UnixPath, shells: ShellFacts, existing: &str) -> (r: Vec<
    TreeStep,
>)
    ensures
        changes(r@) == db_changes(
            join_text(root@, "etc/passwd"@),
            existing@,
            SANDBOX_USER@,
            passwd_line(shell_for(shells)),
        ),
{
    let path: UnixPath = root.join("etc/passwd");
    let shell: String = pick_shell(shells);
    let mut entry: String = owned(SANDBOX_USER);
    entry.append(":x:");
    entry.append(decimal_text(SANDBOX_UID as u64).as_str());
    entry.append(":");
    entry.append(decimal_text(SANDBOX_GID as u64).as_str());
    entry.append(":OpenShell Sandbox:/sandbox:");
    entry.append(shell.as_str());
    entry.append("\n");
    let mut steps: Vec<TreeStep> = Vec::new();
    push_db_entry(&mut steps, &path, existing, SANDBOX_USER, entry.as_str());
    assert(changes(steps@) =~= db_changes(path@, existing@, SANDBOX_USER@, entry@));
    steps
}

/// The entry of the sandbox group for the group database of `root`, whose
/// contents are `existing`, empty where there is none.
pub fn ensure_group_entry(root: &UnixPath, existing: &str) -> (r: Vec<TreeStep>)
    ensures
        changes(r@) == db_changes(
            join_text(root@, "etc/group"@),
            existing@,
            SANDBOX_USER@,
            group_line(),
        ),
{
    let path: UnixPath = root.join("etc/group");
    let mut entry: String = owned(SANDBOX_USER);
    entry.append(":x:");
    entry.append(decimal_text(SANDBOX_GID as u64).as_str());
    entry.append(":\n");
    let mut steps: Vec<TreeStep> = Vec::new();
    push_db_entry(&mut steps, &path, existing, SANDBOX_USER, entry.as_str());
    assert(changes(steps@) =~= db_changes(path@, existing@, SANDBOX_USER@, entry@));
    steps
}

fn push_dir(steps: &mut Vec<TreeStep>, path: UnixPath, mode: u32, present: bool)
    ensures
        changes(final(steps)@) == changes(old(steps)@) + dir_changes(path@, mode, present),
{
    let ghost before = changes(steps@);
    if !present {
        push_step(steps, TreeStep::CreateDirAll { path: path.clone() });
    }
    let ghost at = path@;
    push_step(steps, TreeStep::SetMode { path, mode });
    assert(changes(steps@) =~= before + dir_changes(at, mode, present));
}

fn push_empty_file(steps: &mut Vec<TreeStep>, path: UnixPath, mode: u32, present: bool)
    ensures
        changes(final(steps)@) == changes(old(steps)@) + empty_file_changes(path@, mode, present),
{
    let ghost before = changes(steps@);
    let ghost at = path@;
    push_parent(steps, &path);
    if !present {
        push_step(steps, TreeStep::Write { path: path.clone(), contents: owned("") });
    }
    push_step(steps, TreeStep::SetMode { path, mode });
    assert(changes(steps@) =~= before + empty_file_changes(at, mode, present));
}

/// What a tree holds before the injection.
#[derive(Debug)]
pub struct RootFacts {
    pub shells: ShellFacts,
    /// Contents of `etc/passwd`, empty where there is none.
    pub passwd: String,
    /// Contents of `etc/group`, empty where there is none.
    pub group: String,
    pub sandbox_dir: bool,
    pub tmp_dir: bool,
    pub hosts_file: bool,
    pub resolv_conf_file: bool,
}

/// The changes that an injection into the tree at `root` makes, in order.
pub open spec fn injection(root: Seq<u8>, facts: RootFacts) -> Seq<Change> {
    db_changes(
        join_text(root, "etc/passwd"@),
        facts.passwd@,
        SANDBOX_USER@,
        passwd_line(shell_for(facts.shells)),
    ) + db_changes(join_text(root, "etc/group"@), facts.group@, SANDBOX_USER@, group_line())
        + dir_changes(join_text(root, "sandbox"@), 0o755u32, facts.sandbox_dir) + dir_changes(
        join_text(root, "tmp"@),
        0o1777u32,
        facts.tmp_dir,
    ) + empty_file_changes(join_text(root, "etc/hosts"@), 0o644u32, facts.hosts_file)
        + empty_file_changes(
        join_text(root, "etc/resolv.conf"@),
        0o644u32,
        facts.resolv_conf_file,
    )
}

/// All compatibility injections into the tree at `root`. Idempotent: on a
/// tree that has them, no file is written.
pub fn inject(root: &UnixPath, facts: &RootFacts) -> (r: Vec<TreeStep>)
    ensures
        changes(r@) == injection(root@, *facts),
{
    let mut steps: Vec<TreeStep> = ensure_passwd_entry(root, facts.shells, facts.passwd.as_str());
    let mut group: Vec<TreeStep> = ensure_group_entry(root, facts.group.as_str());
    let ghost a = steps@;
    let ghost b = group@;
    steps.append(&mut group);
    assert(changes(steps@) =~= changes(a) + changes(b));
    push_dir(&mut steps, root.join("sandbox"), 0o755, facts.sandbox_dir);
    push_dir(&mut steps, root.join("tmp"), 0o1777, facts.tmp_dir);
    push_empty_file(&mut steps, root.join("etc/hosts"), 0o644, facts.hosts_file);
    push_empty_file(&mut steps, root.join("etc/resolv.conf"), 0o644, facts.resolv_conf_file);
    steps
}

// ---------------------------------------------------------------------
// Laws
// ---------------------------------------------------------------------
/// Appending preserves what a database held.
pub proof fn law_entries_preserved(db: Seq<char>, entry: Seq<char>)
    ensures
        db.is_prefix_of(with_entry(db, entry)),
        entry.is_suffix_of(with_entry(db, entry)),
{
    let w = with_entry(db, entry);
    assert(db =~= w.subrange(0, db.len() as int));
    assert(entry =~= w.subrange(w.len() - entry.len(), w.len() as int));
}

/// Every entry that a database had, it has after an entry was appended.
pub proof fn law_other_entries_kept(db: Seq<char>, entry: Seq<char>, key: Seq<char>)
    requires
        has_entry(db, key),
    ensures
        has_entry(with_entry(db, entry), key),
{
    let prefix = key + ":"@;
    let w = with_entry(db, entry);
    let i = choose|i: int| #[trigger] line_begins(db, prefix, i);
    assert(w.subrange(i, i + prefix.len()) =~= db.subrange(i, i + prefix.len()));
    assert(line_begins(w, prefix, i));
}

/// Appending happens once: after the entry of a key was appended, the database
/// has it.
pub proof fn law_append_once(db: Seq<char>, key: Seq<char>, entry: Seq<char>)
    requires
        !key.contains('\n'),
        (key + ":"@).is_prefix_of(entry),
    ensures
        has_entry(with_entry(db, entry), key),
{
    let prefix = key + ":"@;
    let w = with_entry(db, entry);
    reveal_strlit("\n");
    reveal_strlit(":");
    let at = w.len() - entry.len();
    assert(w.subrange(at, at + prefix.len()) =~= entry.subrange(0, prefix.len() as int));
    if db.len() > 0 {
        assert(w[at - 1] == '\n');
    }
    assert(line_begins(w, prefix, at));
    assert(!prefix.contains('\n')) by {
        if prefix.contains('\n') {
            let k = choose|k: int| 0 <= k < prefix.len() && prefix[k] == '\n';
            assert(k < key.len());
            assert(key[k] == '\n');
        }
    }
}

proof fn lemma_sandbox_lines(shell: Seq<char>)
    ensures
        !SANDBOX_USER@.contains('\n'),
        (SANDBOX_USER@ + ":"@).is_prefix_of(passwd_line(shell)),
        (SANDBOX_USER@ + ":"@).is_prefix_of(group_line()),
{
    reveal_strlit("sandbox");
    reveal_strlit(":");
    reveal_strlit(":x:");
    let prefix = SANDBOX_USER@ + ":"@;
    assert(prefix =~= passwd_line(shell).subrange(0, prefix.len() as int));
    assert(prefix =~= group_line().subrange(0, prefix.len() as int));
}

/// Whether each change of one list stands in another.
pub open spec fn repeats(again: Seq<Change>, first: Seq<Change>) -> bool {
    forall|i: int| 0 <= i < again.len() ==> first.contains(#[trigger] again[i])
}

/// Whether a change sets permission bits or creates the directory above one
/// of the files that an injection into the tree at `root` looks after.
pub open spec fn settled(root: Seq<u8>, c: Change) -> bool {
    match c {
        Change::Write(_, _) => false,
        Change::SetMode(_, _) => true,
        Change::CreateDirAll(dir) => {
            ||| parent_path(join_text(root, "etc/passwd"@)) == Some(dir)
            ||| parent_path(join_text(root, "etc/group"@)) == Some(dir)
            ||| parent_path(join_text(root, "etc/hosts"@)) == Some(dir)
            ||| parent_path(join_text(root, "etc/resolv.conf"@)) == Some(dir)
        },
    }
}

proof fn lemma_repeats_joined(a: Seq<Change>, b: Seq<Change>, c: Seq<Change>, d: Seq<Change>)
    requires
        repeats(a, c),
        repeats(b, d),
    ensures
        repeats(a + b, c + d),
{
    assert forall|i: int| 0 <= i < (a + b).len() implies (c + d).contains(
        #[trigger] (a + b)[i],
    ) by {
        if i < a.len() {
            assert(c.contains(a[i]));
            let k = choose|k: int| 0 <= k < c.len() && c[k] == a[i];
            assert((c + d)[k] == a[i]);
        } else {
            assert(d.contains(b[i - a.len()]));
            let k = choose|k: int| 0 <= k < d.len() && d[k] == b[i - a.len()];
            assert((c + d)[c.len() + k] == b[i - a.len()]);
        }
    }
}

proof fn lemma_db_repeats(
    path: Seq<u8>,
    first: Seq<char>,
    again: Seq<char>,
    key: Seq<char>,
    entry: Seq<char>,
    other: Seq<char>,
)
    requires
        has_entry(again, key),
    ensures
        repeats(db_changes(path, again, key, other), db_changes(path, first, key, entry)),
        db_changes(path, again, key, other) == parent_changes(path),
{
    let a = db_changes(path, again, key, other);
    let b = db_changes(path, first, key, entry);
    assert(a =~= parent_changes(path));
    assert forall|i: int| 0 <= i < a.len() implies b.contains(#[trigger] a[i]) by {
        assert(b[i] == a[i]);
    }
}

proof fn lemma_dir_repeats(path: Seq<u8>, mode: u32, present: bool)
    ensures
        repeats(dir_changes(path, mode, true), dir_changes(path, mode, present)),
{
    let b = dir_changes(path, mode, present);
    assert(b.contains(b.last()));
    assert(b.last() == Change::SetMode(path, mode));
}

proof fn lemma_empty_file_repeats(path: Seq<u8>, mode: u32, present: bool)
    ensures
        repeats(empty_file_changes(path, mode, true), empty_file_changes(path, mode, present)),
{
    let a = empty_file_changes(path, mode, true);
    let b = empty_file_changes(path, mode, present);
    assert forall|i: int| 0 <= i < a.len() implies b.contains(#[trigger] a[i]) by {
        if i < parent_changes(path).len() {
            assert(b[i] == a[i]);
        } else {
            assert(b.last() == Change::SetMode(path, mode));
            assert(b.contains(b.last()));
        }
    }
}

/// Injecting is idempotent: into a tree as an injection leaves it, with the
/// two databases updated and the directories and files present, a second
/// injection makes no change that the first did not make. It writes no file,
/// every permission that it sets the first one set to the same bits, and
/// every directory that it creates is the parent of one of the files and was
/// created by the first.
#[verifier::rlimit(40)]
#[verifier::spinoff_prover]
pub proof fn law_inject_idempotent(root: Seq<u8>, before: RootFacts, after: RootFacts)
    requires
        after.passwd@ == (if has_entry(before.passwd@, SANDBOX_USER@) {
            before.passwd@
        } else {
            with_entry(before.passwd@, passwd_line(shell_for(before.shells)))
        }),
        after.group@ == (if has_entry(before.group@, SANDBOX_USER@) {
            before.group@
        } else {
            with_entry(before.group@, group_line())
        }),
        after.sandbox_dir,
        after.tmp_dir,
        after.hosts_file,
        after.resolv_conf_file,
    ensures
        repeats(injection(root, after), injection(root, before)),
        forall|i: int|
            0 <= i < injection(root, after).len() ==> settled(
                root,
                #[trigger] injection(root, after)[i],
            ),
        has_entry(after.passwd@, SANDBOX_USER@),
        has_entry(after.group@, SANDBOX_USER@),
{
    lemma_sandbox_lines(shell_for(before.shells));
    if !has_entry(before.passwd@, SANDBOX_USER@) {
        law_append_once(before.passwd@, SANDBOX_USER@, passwd_line(shell_for(before.shells)));
    }
    if !has_entry(before.group@, SANDBOX_USER@) {
        law_append_once(before.group@, SANDBOX_USER@, group_line());
    }
    let passwd = join_text(root, "etc/passwd"@);
    let group = join_text(root, "etc/group"@);
    let sandbox = join_text(root, "sandbox"@);
    let tmp = join_text(root, "tmp"@);
    let hosts = join_text(root, "etc/hosts"@);
    let resolv = join_text(root, "etc/resolv.conf"@);
    let line = passwd_line(shell_for(before.shells));
    let other = passwd_line(shell_for(after.shells));
    let key = SANDBOX_USER@;
    lemma_db_repeats(passwd, before.passwd@, after.passwd@, key, line, other);
    lemma_db_repeats(group, before.group@, after.group@, key, group_line(), group_line());
    lemma_dir_repeats(sandbox, 0o755u32, before.sandbox_dir);
    lemma_dir_repeats(tmp, 0o1777u32, before.tmp_dir);
    lemma_empty_file_repeats(hosts, 0o644u32, before.hosts_file);
    lemma_empty_file_repeats(resolv, 0o644u32, before.resolv_conf_file);
    let a1 = db_changes(passwd, after.passwd@, key, other);
    let b1 = db_changes(passwd, before.passwd@, key, line);
    let a2 = db_changes(group, after.group@, key, group_line());
    let b2 = db_changes(group, before.group@, key, group_line());
    let a3 = dir_changes(sandbox, 0o755u32, true);
    let b3 = dir_changes(sandbox, 0o755u32, before.sandbox_dir);
    let a4 = dir_changes(tmp, 0o1777u32, true);
    let b4 = dir_changes(tmp, 0o1777u32, before.tmp_dir);
    let a5 = empty_file_changes(hosts, 0o644u32, true);
    let b5 = empty_file_changes(hosts, 0o644u32, before.hosts_file);
    let a6 = empty_file_changes(resolv, 0o644u32, true);
    let b6 = empty_file_changes(resolv, 0o644u32, before.resolv_conf_file);
    lemma_repeats_joined(a1, a2, b1, b2);
    lemma_repeats_joined(a1 + a2, a3, b1 + b2, b3);
    lemma_repeats_joined(a1 + a2 + a3, a4, b1 + b2 + b3, b4);
    lemma_repeats_joined(a1 + a2 + a3 + a4, a5, b1 + b2 + b3 + b4, b5);
    lemma_repeats_joined(a1 + a2 + a3 + a4 + a5, a6, b1 + b2 + b3 + b4 + b5, b6);
}

/// The sandbox user stands in the user database exactly once after an
/// injection that appended it: at one line start and no other.
pub proof fn law_sandbox_user_once(db: Seq<char>, shell: Seq<char>, i: int)
    requires
        !has_entry(db, SANDBOX_USER@),
        !shell.contains('\n'),
        line_begins(with_entry(db, passwd_line(shell)), SANDBOX_USER@ + ":"@, i),
    ensures
        i == with_entry(db, passwd_line(shell)).len() - passwd_line(shell).len(),
{
    lemma_sandbox_lines(shell);
    reveal_strlit("\n");
    reveal_strlit(":");
    reveal_strlit("sandbox");
    let prefix = SANDBOX_USER@ + ":"@;
    let entry = passwd_line(shell);
    let w = with_entry(db, entry);
    let at = w.len() - entry.len();
    let n = prefix.len() as int;
    assert(prefix[0] == 's');
    assert(w.subrange(i, i + n)[0] == w[i]);
    if i < at {
        // The match begins before the appended line, so it ends there too: the
        // line feed in front of that line is not in the prefix.
        assert(!prefix.contains('\n'));
        if i + n > at {
            assert(w[at - 1] == '\n');
            assert(w.subrange(i, i + n)[at - 1 - i] == w[at - 1]);
            assert(prefix[at - 1 - i] == '\n');
        }
        if i + n > db.len() {
            assert(w[db.len() as int] == '\n');
            assert(w.subrange(i, i + n)[db.len() - i] == '\n');
            assert(prefix[db.len() - i] == '\n');
        }
        assert(w.subrange(i, i + n) =~= db.subrange(i, i + n));
        assert(line_begins(db, prefix, i));
    } else if i > at {
        lemma_one_line(shell);
        assert(w[i - 1] == entry[i - 1 - at]);
        assert(i - 1 - at == entry.len() - 1);
        assert(i + n <= w.len());
    }
}

proof fn lemma_one_line(shell: Seq<char>)
    requires
        !shell.contains('\n'),
    ensures
        forall|k: int|
            0 <= k < passwd_line(shell).len() - 1 ==> #[trigger] passwd_line(shell)[k] != '\n',
{
    reveal_strlit("\n");
    reveal_strlit(":");
    reveal_strlit(":x:");
    reveal_strlit("sandbox");
    reveal_strlit(":OpenShell Sandbox:/sandbox:");
    crate::text::lemma_decimal_digits(SANDBOX_UID as nat);
    crate::text::lemma_decimal_digits(SANDBOX_GID as nat);
    let a = SANDBOX_USER@;
    let b = a + ":x:"@;
    let c = b + decimal(SANDBOX_UID as nat);
    let d = c + ":"@;
    let e = d + decimal(SANDBOX_GID as nat);
    let f = e + ":OpenShell Sandbox:/sandbox:"@;
    let g = f + shell;
    let entry = passwd_line(shell);
    assert(entry == g + "\n"@);
    assert forall|k: int| 0 <= k < entry.len() - 1 implies #[trigger] entry[k] != '\n' by {
        assert(entry[k] == g[k]);
        if k >= f.len() {
            assert(g[k] == shell[k - f.len()]);
        } else if k >= e.len() {
            assert(g[k] == ":OpenShell Sandbox:/sandbox:"@[k - e.len()]);
        } else if k >= d.len() {
            assert(g[k] == decimal(SANDBOX_GID as nat)[k - d.len()]);
        } else if k >= c.len() {
            assert(g[k] == ":"@[k - c.len()]);
        } else if k >= b.len() {
            assert(g[k] == decimal(SANDBOX_UID as nat)[k - b.len()]);
        } else if k >= a.len() {
            assert(g[k] == ":x:"@[k - a.len()]);
        } else {
            assert(g[k] == a[k]);
        }
    }
}

/// Which shell is picked: `/bin/sh` before `/sbin/nologin`, that before
/// `/bin/false`, that before `/usr/sbin/nologin`, of those that are there;
/// `/sbin/nologin` where none is.
pub proof fn law_shell_order(facts: ShellFacts)
    ensures
        facts.bin_sh ==> shell_for(facts) == "/bin/sh"@,
        !facts.bin_sh && facts.sbin_nologin ==> shell_for(facts) == "/sbin/nologin"@,
        !facts.bin_sh && !facts.sbin_nologin && facts.bin_false ==> shell_for(facts)
            == "/bin/false"@,
        !facts.bin_sh && !facts.sbin_nologin && !facts.bin_false && facts.usr_sbin_nologin
            ==> shell_for(facts) == "/usr/sbin/nologin"@,
        !facts.bin_sh && !facts.sbin_nologin && !facts.bin_false && !facts.usr_sbin_nologin
            ==> shell_for(facts) == "/sbin/nologin"@,
{
}

/// Whether a database `after` is the database `before` with one line behind it:
/// nothing that was there is changed, and the line begins on a line of its own.
pub open spec fn line_added(before: Seq<char>, after: Seq<char>, line: Seq<char>) -> bool {
    if before.len() == 0 || before.last() == '\n' {
        after == before + line
    } else {
        after == before + seq!['\n'] + line
    }
}

/// Appending adds the entry on a line of its own, and changes nothing else.
pub proof fn law_entry_on_its_own_line(db: Seq<char>, entry: Seq<char>)
    ensures
        line_added(db, with_entry(db, entry), entry),
{
    reveal_strlit("\n");
    assert("\n"@ =~= seq!['\n']);
}

proof fn lemma_sandbox_texts(shell: Seq<char>)
    ensures
        passwd_line(shell) == "sandbox:x:10001:10001:OpenShell Sandbox:/sandbox:"@ + shell
            + seq!['\n'],
        group_line() == "sandbox:x:10001:\n"@,
        SANDBOX_USER@ + ":"@ == "sandbox:"@,
{
    reveal_with_fuel(decimal, 6);
    reveal_strlit("sandbox");
    reveal_strlit(":x:");
    reveal_strlit(":");
    reveal_strlit("\n");
    reveal_strlit(":\n");
    reveal_strlit(":OpenShell Sandbox:/sandbox:");
    reveal_strlit("sandbox:x:10001:10001:OpenShell Sandbox:/sandbox:");
    reveal_strlit("sandbox:x:10001:\n");
    reveal_strlit("sandbox:");
    assert(decimal(10001) =~= seq!['1', '0', '0', '0', '1']);
    assert(passwd_line(shell) =~= "sandbox:x:10001:10001:OpenShell Sandbox:/sandbox:"@ + shell
        + seq!['\n']);
    assert(group_line() =~= "sandbox:x:10001:\n"@);
    assert(SANDBOX_USER@ + ":"@ =~= "sandbox:"@);
}

/// Whether a change is one that an injection into a tree with the given facts
/// makes. The user and the group database are each written where they have no
/// sandbox line, from what they themselves held; the two other files are created
/// empty where they are missing, and never written over; the two directories are
/// created where they are missing; and each of these has its permission bits.
pub open spec fn injected(root: Seq<u8>, facts: RootFacts, c: Change) -> bool {
    let passwd = join_text(root, "etc/passwd"@);
    let group = join_text(root, "etc/group"@);
    let hosts = join_text(root, "etc/hosts"@);
    let resolv = join_text(root, "etc/resolv.conf"@);
    let sandbox = join_text(root, "sandbox"@);
    let tmp = join_text(root, "tmp"@);
    match c {
        Change::Write(path, contents) => {
            ||| path == passwd && !has_line(facts.passwd@, "sandbox:"@) && line_added(
                facts.passwd@,
                contents,
                "sandbox:x:10001:10001:OpenShell Sandbox:/sandbox:"@ + shell_for(facts.shells)
                    + seq!['\n'],
            )
            ||| path == group && !has_line(facts.group@, "sandbox:"@) && line_added(
                facts.group@,
                contents,
                "sandbox:x:10001:\n"@,
            )
            ||| path == hosts && !facts.hosts_file && contents.len() == 0
            ||| path == resolv && !facts.resolv_conf_file && contents.len() == 0
        },
        Change::SetMode(path, mode) => {
            ||| path == passwd && !has_line(facts.passwd@, "sandbox:"@) && mode == 0o644
            ||| path == group && !has_line(facts.group@, "sandbox:"@) && mode == 0o644
            ||| path == hosts && mode == 0o644
            ||| path == resolv && mode == 0o644
            ||| path == sandbox && mode == 0o755
            ||| path == tmp && mode == 0o1777
        },
        Change::CreateDirAll(path) => {
            ||| parent_path(passwd) == Some(path)
            ||| parent_path(group) == Some(path)
            ||| parent_path(hosts) == Some(path)
            ||| parent_path(resolv) == Some(path)
            ||| path == sandbox && !facts.sandbox_dir
            ||| path == tmp && !facts.tmp_dir
        },
    }
}

proof fn lemma_same_line_added(before: Seq<char>, a: Seq<char>, b: Seq<char>, line: Seq<char>)
    requires
        line_added(before, a, line),
        line_added(before, b, line),
    ensures
        a == b,
{
}

/// What an injection changes, and what it leaves alone: it makes exactly these
/// changes, whatever the tree held. So every entry that the group database had
/// stands in it afterwards, and every one that the user database had.
pub proof fn law_injection(root: Seq<u8>, facts: RootFacts, c: Change)
    ensures
        injection(root, facts).contains(c) <==> injected(root, facts, c),
{
    let all = injection(root, facts);
    let passwd = join_text(root, "etc/passwd"@);
    let group = join_text(root, "etc/group"@);
    let hosts = join_text(root, "etc/hosts"@);
    let resolv = join_text(root, "etc/resolv.conf"@);
    let sandbox = join_text(root, "sandbox"@);
    let tmp = join_text(root, "tmp"@);
    let shell = shell_for(facts.shells);
    lemma_sandbox_texts(shell);
    law_entry_on_its_own_line(facts.passwd@, passwd_line(shell));
    law_entry_on_its_own_line(facts.group@, group_line());
    reveal_strlit("");
    assert(""@ =~= Seq::<char>::empty());
    let a = db_changes(passwd, facts.passwd@, SANDBOX_USER@, passwd_line(shell));
    let b = db_changes(group, facts.group@, SANDBOX_USER@, group_line());
    let d = dir_changes(sandbox, 0o755u32, facts.sandbox_dir);
    let e = dir_changes(tmp, 0o1777u32, facts.tmp_dir);
    let f = empty_file_changes(hosts, 0o644u32, facts.hosts_file);
    let g = empty_file_changes(resolv, 0o644u32, facts.resolv_conf_file);
    assert(all == a + b + d + e + f + g);
    lemma_contains_concat(a, b, c);
    lemma_contains_concat(a + b, d, c);
    lemma_contains_concat(a + b + d, e, c);
    lemma_contains_concat(a + b + d + e, f, c);
    lemma_contains_concat(a + b + d + e + f, g, c);
    lemma_db_contains(passwd, facts.passwd@, SANDBOX_USER@, passwd_line(shell), c);
    lemma_db_contains(group, facts.group@, SANDBOX_USER@, group_line(), c);
    lemma_dir_contains(sandbox, 0o755u32, facts.sandbox_dir, c);
    lemma_dir_contains(tmp, 0o1777u32, facts.tmp_dir, c);
    lemma_empty_file_contains(hosts, 0o644u32, facts.hosts_file, c);
    lemma_empty_file_contains(resolv, 0o644u32, facts.resolv_conf_file, c);
    if let Change::Write(_, contents) = c {
        if contents.len() == 0 {
            assert(contents =~= ""@);
        }
    }
}

proof fn lemma_contains_concat(a: Seq<Change>, b: Seq<Change>, c: Change)
    ensures
        (a + b).contains(c) <==> a.contains(c) || b.contains(c),
{
    if a.contains(c) {
        let i = choose|i: int| 0 <= i < a.len() && a[i] == c;
        assert((a + b)[i] == c);
    }
    if b.contains(c) {
        let i = choose|i: int| 0 <= i < b.len() && b[i] == c;
        assert((a + b)[a.len() + i] == c);
    }
    if (a + b).contains(c) {
        let i = choose|i: int| 0 <= i < (a + b).len() && (a + b)[i] == c;
        if i < a.len() {
            assert(a[i] == c);
        } else {
            assert(b[i - a.len()] == c);
        }
    }
}

proof fn lemma_parent_contains(path: Seq<u8>, c: Change)
    ensures
        parent_changes(path).contains(c) <==> (c matches Change::CreateDirAll(p) && parent_path(
            path,
        ) == Some(p)),
{
    if parent_path(path) is Some {
        assert(parent_changes(path)[0] == Change::CreateDirAll(parent_path(path)->0));
    }
}

proof fn lemma_db_contains(
    path: Seq<u8>,
    existing: Seq<char>,
    key: Seq<char>,
    entry: Seq<char>,
    c: Change,
)
    ensures
        db_changes(path, existing, key, entry).contains(c) <==> match c {
            Change::CreateDirAll(p) => parent_path(path) == Some(p),
            Change::Write(p, t) => p == path && !has_entry(existing, key) && t == with_entry(
                existing,
                entry,
            ),
            Change::SetMode(p, m) => p == path && !has_entry(existing, key) && m == 0o644,
        },
{
    lemma_parent_contains(path, c);
    let more = if has_entry(existing, key) {
        Seq::<Change>::empty()
    } else {
        seq![Change::Write(path, with_entry(existing, entry)), Change::SetMode(path, 0o644u32)]
    };
    lemma_contains_concat(parent_changes(path), more, c);
    if !has_entry(existing, key) {
        assert(more[0] == Change::Write(path, with_entry(existing, entry)));
        assert(more[1] == Change::SetMode(path, 0o644u32));
    }
}

proof fn lemma_dir_contains(path: Seq<u8>, mode: u32, present: bool, c: Change)
    ensures
        dir_changes(path, mode, present).contains(c) <==> match c {
            Change::CreateDirAll(p) => p == path && !present,
            Change::Write(_, _) => false,
            Change::SetMode(p, m) => p == path && m == mode,
        },
{
    let all = dir_changes(path, mode, present);
    if present {
        assert(all[0] == Change::SetMode(path, mode));
    } else {
        assert(all[0] == Change::CreateDirAll(path));
        assert(all[1] == Change::SetMode(path, mode));
    }
}

proof fn lemma_empty_file_contains(path: Seq<u8>, mode: u32, present: bool, c: Change)
    ensures
        empty_file_changes(path, mode, present).contains(c) <==> match c {
            Change::CreateDirAll(p) => parent_path(path) == Some(p),
            Change::Write(p, t) => p == path && !present && t == ""@,
            Change::SetMode(p, m) => p == path && m == mode,
        },
{
    lemma_parent_contains(path, c);
    let more = if present {
        seq![Change::SetMode(path, mode)]
    } else {
        seq![Change::Write(path, ""@), Change::SetMode(path, mode)]
    };
    lemma_contains_concat(parent_changes(path), more, c);
    if present {
        assert(more[0] == Change::SetMode(path, mode));
    } else {
        assert(more[0] == Change::Write(path, ""@));
        assert(more[1] == Change::SetMode(path, mode));
    }
}

/// The databases that an image brings are kept: what an injection writes at
/// `etc/group` begins with all that the group database held, and what it writes
/// at `etc/passwd` with all that the user database held.
pub proof fn law_injection_keeps_databases(
    root: Seq<u8>,
    facts: RootFacts,
    path: Seq<u8>,
    contents: Seq<char>,
)
    requires
        injection(root, facts).contains(Change::Write(path, contents)),
    ensures
        components(path) == components(root) + seq![
            Part::Name(encode_utf8("etc"@)),
            Part::Name(encode_utf8("group"@)),
        ] ==> facts.group@.is_prefix_of(contents) && !has_line(facts.group@, "sandbox:"@)
            && has_line(contents, "sandbox:"@),
        components(path) == components(root) + seq![
            Part::Name(encode_utf8("etc"@)),
            Part::Name(encode_utf8("passwd"@)),
        ] ==> facts.passwd@.is_prefix_of(contents) && !has_line(facts.passwd@, "sandbox:"@)
            && has_line(contents, "sandbox:"@),
{
    law_injection(root, facts, Change::Write(path, contents));
    lemma_etc_steps(root);
    lemma_sandbox_lines(shell_for(facts.shells));
    lemma_sandbox_texts(shell_for(facts.shells));
    let passwd = join_text(root, "etc/passwd"@);
    let group = join_text(root, "etc/group"@);
    let etc = Part::Name(encode_utf8("etc"@));
    let base = components(root);
    assert((base + seq![etc, Part::Name(encode_utf8("passwd"@))]).last() == Part::Name(
        encode_utf8("passwd"@),
    ));
    assert((base + seq![etc, Part::Name(encode_utf8("group"@))]).last() == Part::Name(
        encode_utf8("group"@),
    ));
    assert((base + seq![etc, Part::Name(encode_utf8("hosts"@))]).last() == Part::Name(
        encode_utf8("hosts"@),
    ));
    assert((base + seq![etc, Part::Name(encode_utf8("resolv.conf"@))]).last() == Part::Name(
        encode_utf8("resolv.conf"@),
    ));
    if path == passwd && !has_line(facts.passwd@, "sandbox:"@) {
        let line = passwd_line(shell_for(facts.shells));
        law_entry_on_its_own_line(facts.passwd@, line);
        lemma_same_line_added(facts.passwd@, contents, with_entry(facts.passwd@, line), line);
        law_entries_preserved(facts.passwd@, line);
        law_append_once(facts.passwd@, SANDBOX_USER@, line);
    }
    if path == group && !has_line(facts.group@, "sandbox:"@) {
        law_entry_on_its_own_line(facts.group@, group_line());
        lemma_same_line_added(
            facts.group@,
            contents,
            with_entry(facts.group@, group_line()),
            group_line(),
        );
        law_entries_preserved(facts.group@, group_line());
        law_append_once(facts.group@, SANDBOX_USER@, group_line());
    }
}

proof fn lemma_etc_steps(root: Seq<u8>)
    ensures
        ({
            let etc = Part::Name(encode_utf8("etc"@));
            let base = components(root);
            &&& components(join_text(root, "etc/passwd"@)) == base + seq![
                etc,
                Part::Name(encode_utf8("passwd"@)),
            ]
            &&& components(join_text(root, "etc/group"@)) == base + seq![
                etc,
                Part::Name(encode_utf8("group"@)),
            ]
            &&& components(join_text(root, "etc/hosts"@)) == base + seq![
                etc,
                Part::Name(encode_utf8("hosts"@)),
            ]
            &&& components(join_text(root, "etc/resolv.conf"@)) == base + seq![
                etc,
                Part::Name(encode_utf8("resolv.conf"@)),
            ]
            &&& encode_utf8("passwd"@) != encode_utf8("group"@)
            &&& encode_utf8("hosts"@) != encode_utf8("group"@)
            &&& encode_utf8("resolv.conf"@) != encode_utf8("group"@)
            &&& encode_utf8("hosts"@) != encode_utf8("passwd"@)
            &&& encode_utf8("resolv.conf"@) != encode_utf8("passwd"@)
        }),
{
    reveal_strlit("etc");
    reveal_strlit("passwd");
    reveal_strlit("group");
    reveal_strlit("hosts");
    reveal_strlit("resolv.conf");
    reveal_strlit("etc/passwd");
    reveal_strlit("etc/group");
    reveal_strlit("etc/hosts");
    reveal_strlit("etc/resolv.conf");
    assert("etc/passwd"@ =~= "etc"@ + seq!['/'] + "passwd"@);
    assert("etc/group"@ =~= "etc"@ + seq!['/'] + "group"@);
    assert("etc/hosts"@ =~= "etc"@ + seq!['/'] + "hosts"@);
    assert("etc/resolv.conf"@ =~= "etc"@ + seq!['/'] + "resolv.conf"@);
    law_join_adds_two_steps(root, "etc"@, "passwd"@, "etc/passwd"@);
    law_join_adds_two_steps(root, "etc"@, "group"@, "etc/group"@);
    law_join_adds_two_steps(root, "etc"@, "hosts"@, "etc/hosts"@);
    law_join_adds_two_steps(root, "etc"@, "resolv.conf"@, "etc/resolv.conf"@);
    lemma_ascii_bytes("passwd"@);
    lemma_ascii_bytes("group"@);
    lemma_ascii_bytes("hosts"@);
    lemma_ascii_bytes("resolv.conf"@);
    assert(encode_utf8("hosts"@)[0] as int == 'h' as int);
    assert(encode_utf8("group"@)[0] as int == 'g' as int);
}

/// Whether each file is written behind the creation of its directory and before
/// its permission bits are set.
pub open spec fn in_order(list: Seq<Change>) -> bool {
    forall|i: int| 0 <= i < list.len() ==> write_in_order(list, i)
}

/// Whether the change with number `i`, where it writes a file, stands between the
/// creation of the file's directory and the setting of its permission bits.
pub open spec fn write_in_order(list: Seq<Change>, i: int) -> bool {
    list[i] matches Change::Write(path, _) ==> (parent_path(path) matches Some(up) ==> i > 0
        && list[i - 1] == Change::CreateDirAll(up)) && i + 1 < list.len() && list[i + 1]
        == Change::SetMode(path, 0o644)
}

proof fn lemma_in_order_joined(a: Seq<Change>, b: Seq<Change>)
    requires
        in_order(a),
        in_order(b),
    ensures
        in_order(a + b),
{
    let all = a + b;
    assert forall|i: int| 0 <= i < all.len() implies write_in_order(all, i) by {
        if i < a.len() {
            assert(write_in_order(a, i));
        } else {
            assert(write_in_order(b, i - a.len()));
            if i > a.len() {
                assert(all[i - 1] == b[i - a.len() - 1]);
            }
        }
    }
}

/// An injection creates a directory before it writes into it, and gives a file
/// its permission bits after it has written it.
pub proof fn law_injection_order(root: Seq<u8>, facts: RootFacts)
    ensures
        in_order(injection(root, facts)),
{
    let passwd = join_text(root, "etc/passwd"@);
    let group = join_text(root, "etc/group"@);
    let line = passwd_line(shell_for(facts.shells));
    let a = db_changes(passwd, facts.passwd@, SANDBOX_USER@, line);
    let b = db_changes(group, facts.group@, SANDBOX_USER@, group_line());
    let c = dir_changes(join_text(root, "sandbox"@), 0o755u32, facts.sandbox_dir);
    let d = dir_changes(join_text(root, "tmp"@), 0o1777u32, facts.tmp_dir);
    let e = empty_file_changes(join_text(root, "etc/hosts"@), 0o644u32, facts.hosts_file);
    let f = empty_file_changes(
        join_text(root, "etc/resolv.conf"@),
        0o644u32,
        facts.resolv_conf_file,
    );
    lemma_db_in_order(passwd, facts.passwd@, SANDBOX_USER@, line);
    lemma_db_in_order(group, facts.group@, SANDBOX_USER@, group_line());
    lemma_empty_file_in_order(join_text(root, "etc/hosts"@), facts.hosts_file);
    lemma_empty_file_in_order(join_text(root, "etc/resolv.conf"@), facts.resolv_conf_file);
    assert(in_order(c));
    assert(in_order(d));
    lemma_in_order_joined(a, b);
    lemma_in_order_joined(a + b, c);
    lemma_in_order_joined(a + b + c, d);
    lemma_in_order_joined(a + b + c + d, e);
    lemma_in_order_joined(a + b + c + d + e, f);
}

proof fn lemma_db_in_order(path: Seq<u8>, existing: Seq<char>, key: Seq<char>, entry: Seq<char>)
    ensures
        in_order(db_changes(path, existing, key, entry)),
{
    assert(parent_changes(path).len() <= 1);
}

proof fn lemma_empty_file_in_order(path: Seq<u8>, present: bool)
    ensures
        in_order(empty_file_changes(path, 0o644u32, present)),
{
    assert(parent_changes(path).len() <= 1);
}

/// A change of the tree is what its values say, and a list of changes holds each in
/// its place.
pub proof fn law_tree_steps(steps: Seq<TreeStep>)
    ensures
        changes(steps).len() == steps.len(),
        forall|i: int|
            0 <= i < steps.len() ==> (match steps[i] {
                TreeStep::CreateDirAll { path } => #[trigger] changes(steps)[i]
                    == Change::CreateDirAll(path.bytes@),
                TreeStep::Write { path, contents } => changes(steps)[i] == Change::Write(
                    path.bytes@,
                    contents@,
                ),
                TreeStep::SetMode { path, mode } => changes(steps)[i] == Change::SetMode(
                    path.bytes@,
                    mode,
                ),
            }),
{
}

} // verus!

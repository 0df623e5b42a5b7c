//! Configuration of a microVM, and what it needs of the host.

use crate::path::{path_opt, text_from_utf8, text_from_utf8_lossy, lossy_text, UnixPath};
use crate::text::{
    bare_part, chars_of, concat, concat3, contains_text, law_trimmed, occurs_in, owned, texts, trim,
    trimmed, white_space,
};
use vstd::prelude::*;
use vstd::utf8::*;

verus! {

/// Networking backend of a microVM.
#[derive(Debug, PartialEq, Eq)]
pub enum NetBackend {
    /// Transparent Socket Impersonation, libkrun's default. Intercepts the
    /// guest's loopback connections.
    Tsi,
    /// No networking. For debugging only.
    Disabled,
    /// gvproxy in vfkit mode: a real `eth0` interface. Ports are forwarded
    /// through gvproxy's HTTP API.
    Gvproxy {
        /// Path of the gvproxy binary.
        binary: UnixPath,
    },
}

impl Clone for NetBackend {
    fn clone(&self) -> (r: Self)
        ensures
            same_net(r, *self),
    {
        match self {
            NetBackend::Tsi => NetBackend::Tsi,
            NetBackend::Disabled => NetBackend::Disabled,
            NetBackend::Gvproxy { binary } => NetBackend::Gvproxy { binary: binary.clone() },
        }
    }
}

/// Whether two backends are the same.
pub open spec fn same_net(a: NetBackend, b: NetBackend) -> bool {
    match (a, b) {
        (NetBackend::Tsi, NetBackend::Tsi) => true,
        (NetBackend::Disabled, NetBackend::Disabled) => true,
        (NetBackend::Gvproxy { binary: x }, NetBackend::Gvproxy { binary: y }) => x@ == y@,
        _ => false,
    }
}

/// Configuration of a microVM.
#[derive(Debug)]
pub struct VmConfig {
    /// Root file system directory.
    pub rootfs: UnixPath,
    /// Virtual CPUs.
    pub vcpus: u8,
    /// Memory in MiB.
    pub mem_mib: u32,
    /// Executable inside the VM.
    pub exec_path: String,
    /// Arguments of the executable, without its name.
    pub args: Vec<String>,
    /// Environment in `KEY=VALUE` form. A minimal one is used where it is empty.
    pub env: Vec<String>,
    /// Working directory inside the VM.
    pub workdir: String,
    /// TCP port mappings in `host_port:guest_port` form.
    pub port_map: Vec<String>,
    /// libkrun log level (0=Off .. 5=Trace).
    pub log_level: u32,
    /// File for the console output. `console.log` beside the root file system
    /// where none is given.
    pub console_output: Option<UnixPath>,
    /// Networking backend.
    pub net: NetBackend,
}

/// The environment of a VM for which none is configured.
pub open spec fn minimal_env() -> Seq<Seq<char>> {
    seq![
        "HOME=/root"@,
        "PATH=/usr/local/sbin:/usr/local/bin:/usr/sbin:/usr/bin:/sbin:/bin"@,
        "TERM=xterm"@,
    ]
}

/// The environment of a VM for which none is configured.
pub fn default_env() -> (r: Vec<String>)
    ensures
        texts(r@) == minimal_env(),
{
    let mut env: Vec<String> = Vec::new();
    env.push(owned("HOME=/root"));
    env.push(owned("PATH=/usr/local/sbin:/usr/local/bin:/usr/sbin:/usr/bin:/sbin:/bin"));
    env.push(owned("TERM=xterm"));
    assert(texts(env@) =~= minimal_env());
    env
}

impl VmConfig {
    /// The gateway configuration: boots a k3s server inside the VM.
    ///
    /// Runs `/srv/gateway-init.sh`, which ends in `k3s server`. The Kubernetes
    /// API is exposed on port 6443, the gateway on port 30051. `gvproxy` is the
    /// binary that was found, if any.
    pub fn gateway(rootfs: UnixPath, gvproxy: Option<UnixPath>) -> (r: VmConfig)
        ensures
            r.rootfs == rootfs,
            r.vcpus == 4,
            r.mem_mib == 8192,
            r.exec_path@ == "/srv/gateway-init.sh"@,
            r.args@.len() == 0,
            texts(r.env@) == minimal_env(),
            r.workdir@ == "/"@,
            texts(r.port_map@) == seq!["6443:6444"@, "30051:30051"@],
            r.log_level == 3,
            r.console_output is None,
            r.net matches NetBackend::Gvproxy { binary } && binary@ == (match gvproxy {
                Some(path) => path@,
                None => encode_utf8("/opt/podman/bin/gvproxy"@),
            }),
    {
        let mut port_map: Vec<String> = Vec::new();
        // The dynamic listener on 6443 has TLS issues through port forwarding,
        // so the mapping goes to the API server itself.
        port_map.push(owned("6443:6444"));
        port_map.push(owned("30051:30051"));
        assert(texts(port_map@) =~= seq!["6443:6444"@, "30051:30051"@]);
        VmConfig {
            rootfs,
            vcpus: 4,
            mem_mib: 8192,
            exec_path: owned("/srv/gateway-init.sh"),
            args: Vec::new(),
            env: default_env(),
            workdir: owned("/"),
            port_map,
            log_level: 3,
            console_output: None,
            net: NetBackend::Gvproxy {
                binary: match gvproxy {
                    Some(path) => path,
                    None => UnixPath::new("/opt/podman/bin/gvproxy"),
                },
            },
        }
    }
}

// ---------------------------------------------------------------------
// Host tools
// ---------------------------------------------------------------------
/// What a tool wrote to its standard output, and whether it succeeded.
#[derive(Debug)]
pub struct ToolOutput {
    pub success: bool,
    pub stdout: Vec<u8>,
}

/// Which of the usual places hold a gvproxy binary.
#[derive(Debug, Clone, Copy, PartialEq, Eq, Structural)]
pub struct GvproxyFacts {
    pub opt_podman: bool,
    pub opt_homebrew: bool,
    pub usr_local: bool,
}

/// The path that `which gvproxy` printed, if it did.
pub open spec fn which_path(which: Option<ToolOutput>) -> Option<Seq<u8>> {
    match which {
        Some(out) => {
            let path = trimmed(lossy_text(out.stdout@));
            if out.success && path.len() > 0 {
                Some(encode_utf8(path))
            } else {
                None
            }
        },
        None => None,
    }
}

/// Where gvproxy is: on the search path, else in one of the usual places.
pub open spec fn gvproxy_path(which: Option<ToolOutput>, facts: GvproxyFacts) -> Option<Seq<u8>> {
    match which_path(which) {
        Some(path) => Some(path),
        None => if facts.opt_podman {
            Some(encode_utf8("/opt/podman/bin/gvproxy"@))
        } else if facts.opt_homebrew {
            Some(encode_utf8("/opt/homebrew/bin/gvproxy"@))
        } else if facts.usr_local {
            Some(encode_utf8("/usr/local/bin/gvproxy"@))
        } else {
            None
        },
    }
}

/// Finds gvproxy. `which` is the output of `which gvproxy`, where that could be
/// run.
pub fn find_gvproxy(which: &Option<ToolOutput>, facts: GvproxyFacts) -> (r: Option<UnixPath>)
    ensures
        path_opt(r) == gvproxy_path(*which, facts),
{
    match which {
        Some(out) => {
            if out.success {
                let text: String = text_from_utf8_lossy(&out.stdout);
                let path: &str = trim(text.as_str());
                if chars_of(path).len() > 0 {
                    return Some(UnixPath::new(path));
                }
            }
        },
        None => {},
    }
    if facts.opt_podman {
        Some(UnixPath::new("/opt/podman/bin/gvproxy"))
    } else if facts.opt_homebrew {
        Some(UnixPath::new("/opt/homebrew/bin/gvproxy"))
    } else if facts.usr_local {
        Some(UnixPath::new("/usr/local/bin/gvproxy"))
    } else {
        None
    }
}

/// Whether `dir` is the Homebrew library directory, by the output of
/// `brew --prefix`.
pub open spec fn is_homebrew_lib(dir: Seq<char>, brew: Option<ToolOutput>) -> bool {
    match brew {
        Some(out) => if out.success && valid_utf8(out.stdout@) {
            dir == trimmed(decode_utf8(out.stdout@)) + "/lib"@
        } else {
            dir == "/opt/homebrew/lib"@
        },
        None => dir == "/opt/homebrew/lib"@,
    }
}

/// The Homebrew library directory. `brew` is the output of `brew --prefix`,
/// where that could be run.
pub fn homebrew_lib_dir(brew: Option<ToolOutput>) -> (r: String)
    ensures
        is_homebrew_lib(r@, brew),
{
    match brew {
        Some(out) => {
            if out.success {
                let ghost bytes = out.stdout@;
                match text_from_utf8(out.stdout) {
                    Some(text) => {
                        proof {
                            encode_utf8_decode_utf8(text@);
                        }
                        return concat(trim(text.as_str()), "/lib");
                    },
                    None => {},
                }
            }
        },
        None => {},
    }
    owned("/opt/homebrew/lib")
}

/// What the search path of libraries asks for.
#[derive(Debug, PartialEq, Eq)]
pub enum LibraryPath {
    /// The directory is on the path.
    Ready,
    /// The process is to be run again with this path.
    Rerun { value: String },
}

/// Whether `r` is what the value of the variable means for the library directory.
pub open spec fn library_path(
    existing: Option<String>,
    homebrew_lib: Seq<char>,
    r: LibraryPath,
) -> bool {
    match existing {
        Some(value) => if occurs_in(homebrew_lib, value@) {
            r == LibraryPath::Ready
        } else {
            r matches LibraryPath::Rerun { value: v } && v@ == homebrew_lib + ":"@ + value@
        },
        None => r matches LibraryPath::Rerun { value: v } && v@ == homebrew_lib,
    }
}

/// Whether `DYLD_FALLBACK_LIBRARY_PATH` holds the Homebrew library directory.
///
/// libkrun loads its firmware library at run time, and the loader reads the
/// variable at process startup only: where the directory is missing the
/// process runs itself again with the variable set. `existing` is the value of
/// the variable, where it is set.
pub fn ensure_krunfw_path(existing: Option<String>, homebrew_lib: &str) -> (r: LibraryPath)
    ensures
        library_path(existing, homebrew_lib@, r),
{
    match existing {
        Some(value) => {
            if contains_text(value.as_str(), homebrew_lib) {
                return LibraryPath::Ready;
            }
            LibraryPath::Rerun { value: concat3(homebrew_lib, ":", value.as_str()) }
        },
        None => LibraryPath::Rerun { value: owned(homebrew_lib) },
    }
}

/// A process that runs itself again does so once: with the variable set to the
/// new path, the directory is on it.
pub proof fn law_rerun_once(homebrew_lib: Seq<char>, existing: Seq<char>)
    ensures
        occurs_in(homebrew_lib, homebrew_lib),
        occurs_in(homebrew_lib, homebrew_lib + ":"@ + existing),
{
    assert(homebrew_lib.subrange(0, 0int + homebrew_lib.len()) =~= homebrew_lib);
    let longer = homebrew_lib + ":"@ + existing;
    assert(longer.subrange(0, 0int + homebrew_lib.len()) =~= homebrew_lib);
}

/// The process runs itself again exactly where the directory is not on the path;
/// the new path begins with the directory, and all that was on the path stays on
/// it, behind a colon.
pub proof fn law_library_path(existing: Option<String>, homebrew_lib: Seq<char>, r: LibraryPath)
    requires
        library_path(existing, homebrew_lib, r),
    ensures
        r is Ready <==> (existing matches Some(value) && occurs_in(homebrew_lib, value@)),
        r matches LibraryPath::Rerun { value: new } ==> homebrew_lib.is_prefix_of(new@)
            && occurs_in(homebrew_lib, new@) && (existing matches Some(value) ==> (seq![':']
            + value@).is_suffix_of(new@) && new@.len() == homebrew_lib.len() + 1 + value@.len()),
{
    reveal_strlit(":");
    assert(":"@ =~= seq![':']);
    match r {
        LibraryPath::Rerun { value: new } => {
            let v = new@;
            assert(homebrew_lib =~= v.subrange(0, homebrew_lib.len() as int));
            match existing {
                Some(value) => {
                    law_rerun_once(homebrew_lib, value@);
                    let end = seq![':'] + value@;
                    assert(end =~= v.subrange(v.len() - end.len(), v.len() as int));
                },
                None => {
                    law_rerun_once(homebrew_lib, Seq::empty());
                },
            }
        },
        LibraryPath::Ready => {},
    }
}

/// Where gvproxy is: what `which` printed, without the white space around it,
/// goes before every usual place; of those, Podman's goes before Homebrew's, and
/// that before the local one; and there is none where nothing was found.
pub proof fn law_gvproxy_path(which: Option<ToolOutput>, facts: GvproxyFacts)
    ensures
        which matches Some(out) ==> {
            let printed = lossy_text(out.stdout@);
            &&& out.success && trimmed(printed).len() > 0 ==> exists|i: int, j: int| #[trigger]
                bare_part(printed, i, j) && gvproxy_path(which, facts) == Some(
                    encode_utf8(printed.subrange(i, j)),
                )
            &&& out.success && (forall|k: int|
                0 <= k < printed.len() ==> white_space(#[trigger] printed[k])) ==> gvproxy_path(
                which,
                facts,
            ) == gvproxy_path(None, facts)
            &&& !out.success ==> gvproxy_path(which, facts) == gvproxy_path(None, facts)
        },
        facts.opt_podman ==> gvproxy_path(None, facts) == Some(
            encode_utf8("/opt/podman/bin/gvproxy"@),
        ),
        !facts.opt_podman && facts.opt_homebrew ==> gvproxy_path(None, facts) == Some(
            encode_utf8("/opt/homebrew/bin/gvproxy"@),
        ),
        !facts.opt_podman && !facts.opt_homebrew && facts.usr_local ==> gvproxy_path(None, facts)
            == Some(encode_utf8("/usr/local/bin/gvproxy"@)),
        !facts.opt_podman && !facts.opt_homebrew && !facts.usr_local ==> gvproxy_path(
            None,
            facts,
        ) is None,
{
    match which {
        Some(out) => {
            law_trimmed(lossy_text(out.stdout@));
        },
        None => {},
    }
}

/// The library directory is `lib` below what `brew` printed, without the white
/// space around it; it is Homebrew's usual one where `brew` failed or printed no
/// text.
pub proof fn law_homebrew_lib(dir: Seq<char>, brew: Option<ToolOutput>)
    requires
        is_homebrew_lib(dir, brew),
    ensures
        brew matches Some(out) ==> (out.success && valid_utf8(out.stdout@) ==> exists|
            i: int,
            j: int,
        | #[trigger]
            bare_part(decode_utf8(out.stdout@), i, j) && dir == decode_utf8(
                out.stdout@,
            ).subrange(i, j) + "/lib"@),
        !(brew matches Some(out) && out.success && valid_utf8(out.stdout@)) ==> dir
            == "/opt/homebrew/lib"@,
{
    match brew {
        Some(out) => {
            law_trimmed(decode_utf8(out.stdout@));
        },
        None => {},
    }
}

} // verus!

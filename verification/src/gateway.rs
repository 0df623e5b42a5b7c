//! The standalone gateway: which microVM its options ask for, and running a
//! command of the host against the gateway's cluster.

use crate::path::{
    byte_lists, components, copy_bytes, encoded, join_text, law_join_adds_a_step, law_join_path,
    law_parent_drops_last_step, lemma_rooted_text, lossy_text, parent_path, path_list, push_bytes,
    split_bytes, Part, UnixPath,
};
use crate::text::{
    concat3, joined, lemma_occurs, occurs_in, owned, pieces, same_text, starts_with, texts,
};
use crate::vm::config::{minimal_env, NetBackend, VmConfig};
use crate::vm::launch::{launch_acts, law_launch_carries_the_config, same_texts, Act};
use vstd::prelude::*;
use vstd::utf8::*;

verus! {

/// The byte `:`.
pub const COLON: u8 = 0x3a;

// ---------------------------------------------------------------------
// Running a VM
// ---------------------------------------------------------------------
/// Options of a run.
#[derive(Debug)]
pub struct RunArgs {
    /// Root file system directory.
    pub rootfs: Option<UnixPath>,
    /// Executable inside the VM, in place of the gateway's.
    pub exec_path: Option<String>,
    pub args: Vec<String>,
    pub env: Vec<String>,
    pub workdir: String,
    pub port: Vec<String>,
    pub vcpus: Option<u8>,
    pub mem: Option<u32>,
    pub krun_log_level: u32,
    /// `gvproxy`, `tsi` or `none`.
    pub net: String,
}

/// What a run takes from the installation where its options say nothing.
#[derive(Debug)]
pub struct RunDefaults {
    /// Path of the gvproxy binary.
    pub gvproxy: UnixPath,
    /// Root file system directory, or why it is not known.
    pub rootfs: Result<UnixPath, String>,
}

/// Whether a backend is the one that an option names.
pub open spec fn net_named(name: Seq<char>, defaults: RunDefaults, net: NetBackend) -> bool {
    ||| name == "tsi"@ && net == NetBackend::Tsi
    ||| name == "none"@ && net == NetBackend::Disabled
    ||| name == "gvproxy"@ && (net matches NetBackend::Gvproxy { binary } && binary@
        == defaults.gvproxy@)
}

/// Whether an option names a backend.
pub open spec fn names_net(name: Seq<char>) -> bool {
    name == "tsi"@ || name == "none"@ || name == "gvproxy"@
}

/// The networking backend that an option names.
pub fn net_backend(name: &str, defaults: &RunDefaults) -> (r: Result<NetBackend, String>)
    ensures
        match r {
            Ok(net) => names_net(name@) && net_named(name@, *defaults, net),
            Err(e) => !names_net(name@) && e@ == "unknown --net backend: "@ + name@
                + " (expected: gvproxy, tsi, none)"@,
        },
{
    if same_text(name, "tsi") {
        Ok(NetBackend::Tsi)
    } else if same_text(name, "none") {
        Ok(NetBackend::Disabled)
    } else if same_text(name, "gvproxy") {
        Ok(NetBackend::Gvproxy { binary: defaults.gvproxy.clone() })
    } else {
        Err(concat3("unknown --net backend: ", name, " (expected: gvproxy, tsi, none)"))
    }
}

/// The root file system that a run uses, or why it is not known.
pub open spec fn rootfs_of(args: RunArgs, defaults: RunDefaults) -> Result<Seq<u8>, Seq<char>> {
    match args.rootfs {
        Some(path) => Ok(path@),
        None => match defaults.rootfs {
            Ok(path) => Ok(path@),
            Err(e) => Err(e@),
        },
    }
}

/// A value that is given, or the default.
pub open spec fn given_or<T>(value: Option<T>, default_value: T) -> T {
    match value {
        Some(v) => v,
        None => default_value,
    }
}

/// Whether a VM is what the options of a run ask for: the executable that they
/// give, else the gateway's with what they change of it.
pub open spec fn vm_for(args: RunArgs, defaults: RunDefaults, config: VmConfig) -> bool {
    &&& rootfs_of(args, defaults) == Ok::<Seq<u8>, Seq<char>>(config.rootfs@)
    &&& net_named(args.net@, defaults, config.net)
    &&& config.log_level == args.krun_log_level
    &&& config.console_output is None
    &&& match args.exec_path {
        Some(path) => {
            &&& config.exec_path == path
            &&& config.vcpus == given_or(args.vcpus, 2)
            &&& config.mem_mib == given_or(args.mem, 2048)
            &&& config.args == args.args
            &&& config.env == args.env
            &&& config.workdir == args.workdir
            &&& config.port_map == args.port
        },
        None => {
            &&& config.exec_path@ == "/srv/gateway-init.sh"@
            &&& config.vcpus == given_or(args.vcpus, 4)
            &&& config.mem_mib == given_or(args.mem, 8192)
            &&& config.args@.len() == 0
            &&& texts(config.env@) == minimal_env()
            &&& config.workdir@ == "/"@
            &&& texts(config.port_map@) == (if args.port@.len() > 0 {
                texts(args.port@)
            } else {
                seq!["6443:6444"@, "30051:30051"@]
            })
        },
    }
}

/// Whether `r` is what the options of a run come to.
pub open spec fn run_means(
    args: RunArgs,
    defaults: RunDefaults,
    r: Result<VmConfig, String>,
) -> bool {
    match r {
        Ok(config) => names_net(args.net@) && vm_for(args, defaults, config),
        Err(e) => if !names_net(args.net@) {
            e@ == "unknown --net backend: "@ + args.net@ + " (expected: gvproxy, tsi, none)"@
        } else {
            rootfs_of(args, defaults) == Err::<Seq<u8>, Seq<char>>(e@)
        },
    }
}

/// The VM that the options of a run ask for.
pub fn run(args: RunArgs, defaults: RunDefaults) -> (r: Result<VmConfig, String>)
    ensures
        run_means(args, defaults, r),
{
    let net: NetBackend = match net_backend(args.net.as_str(), &defaults) {
        Ok(net) => net,
        Err(e) => {
            return Err(e);
        },
    };
    let rootfs: UnixPath = match args.rootfs {
        Some(path) => path,
        None => match defaults.rootfs {
            Ok(path) => path,
            Err(e) => {
                return Err(e);
            },
        },
    };
    match args.exec_path {
        Some(exec_path) => Ok(
            VmConfig {
                rootfs,
                vcpus: match args.vcpus {
                    Some(v) => v,
                    None => 2,
                },
                mem_mib: match args.mem {
                    Some(m) => m,
                    None => 2048,
                },
                exec_path,
                args: args.args,
                env: args.env,
                workdir: args.workdir,
                port_map: args.port,
                log_level: args.krun_log_level,
                console_output: None,
                net,
            },
        ),
        None => {
            let mut config: VmConfig = VmConfig::gateway(rootfs, None);
            if args.port.len() > 0 {
                config.port_map = args.port;
            }
            match args.vcpus {
                Some(v) => {
                    config.vcpus = v;
                },
                None => {},
            }
            match args.mem {
                Some(m) => {
                    config.mem_mib = m;
                },
                None => {},
            }
            config.net = net;
            config.log_level = args.krun_log_level;
            Ok(config)
        },
    }
}

// ---------------------------------------------------------------------
// Paths
// ---------------------------------------------------------------------
/// Where the gateway's kubeconfig stands below a home directory.
pub open spec fn kubeconfig_file(home: Seq<char>) -> Seq<u8> {
    join_text(join_text(encode_utf8(home), ".kube"@), "gateway.yaml"@)
}

/// Where the gateway's kubeconfig stands. `home` is the home directory, or why
/// it is not known.
pub fn gateway_kubeconfig_path(home: Result<String, String>) -> (r: Result<UnixPath, String>)
    ensures
        match home {
            Ok(h) => r matches Ok(path) && path@ == kubeconfig_file(h@),
            Err(e) => r == Err::<UnixPath, String>(e),
        },
{
    match home {
        Ok(h) => Ok(UnixPath::new(h.as_str()).join(".kube").join("gateway.yaml")),
        Err(e) => Err(e),
    }
}

/// The directory two levels above a path.
pub open spec fn grandparent(path: Seq<u8>) -> Option<Seq<u8>> {
    match parent_path(path) {
        Some(parent) => parent_path(parent),
        None => None,
    }
}

/// Where the gateway's root file system is installed below a home directory.
pub open spec fn installed_rootfs(home: Seq<char>) -> Seq<u8> {
    join_text(encode_utf8(home), ".local/share/openshell/gateway/rootfs"@)
}

/// Where the gateway's root file system is installed: below the home directory,
/// which must be known.
pub fn default_rootfs_dir(home: Result<String, String>) -> (r: Result<UnixPath, String>)
    ensures
        match home {
            Ok(h) => r matches Ok(path) && path@ == installed_rootfs(h@),
            Err(e) => r == Err::<UnixPath, String>(e),
        },
{
    match home {
        Ok(h) => Ok(UnixPath::new(h.as_str()).join(".local/share/openshell/gateway/rootfs")),
        Err(e) => Err(e),
    }
}

/// The root of the workspace that holds the package in `manifest_dir`: two
/// levels above it.
pub fn workspace_root(manifest_dir: &UnixPath) -> (r: UnixPath)
    requires
        grandparent(manifest_dir@) is Some,
    ensures
        grandparent(manifest_dir@) == Some(r@),
{
    match manifest_dir.parent() {
        Some(parent) => match parent.parent() {
            Some(root) => root,
            None => parent,
        },
        None => manifest_dir.clone(),
    }
}

/// Where the workspace's own `kubectl` wrapper stands.
pub open spec fn wrapper_file(manifest_dir: Seq<u8>) -> Seq<u8> {
    join_text(grandparent(manifest_dir)->0, "scripts/bin/kubectl"@)
}

/// Where the workspace's own `kubectl` wrapper stands.
pub fn openshell_kubectl_wrapper_path(manifest_dir: &UnixPath) -> (r: UnixPath)
    requires
        grandparent(manifest_dir@) is Some,
    ensures
        r@ == wrapper_file(manifest_dir@),
{
    workspace_root(manifest_dir).join("scripts/bin/kubectl")
}

/// Whether two paths lead the same way; two that are not known do.
pub open spec fn same_way(a: Option<UnixPath>, b: Option<UnixPath>) -> bool {
    match (a, b) {
        (Some(x), Some(y)) => components(x@) == components(y@),
        (None, None) => true,
        _ => false,
    }
}

/// Whether a file is the workspace's `kubectl` wrapper, by the canonical paths
/// of the two, where they are known.
pub fn is_openshell_kubectl_wrapper(
    canonical: &Option<UnixPath>,
    wrapper: &Option<UnixPath>,
) -> (r: bool)
    ensures
        r == same_way(*canonical, *wrapper),
{
    match (canonical, wrapper) {
        (Some(x), Some(y)) => x.same_steps(y),
        (None, None) => true,
        _ => false,
    }
}

// ---------------------------------------------------------------------
// Search paths
// ---------------------------------------------------------------------
/// The directories that do not lead the same way as `dir`.
pub open spec fn without_dir(entries: Seq<Seq<u8>>, dir: Seq<u8>) -> Seq<Seq<u8>>
    decreases entries.len(),
{
    if entries.len() == 0 {
        Seq::empty()
    } else {
        let before = without_dir(entries.drop_last(), dir);
        if components(entries.last()) == components(dir) {
            before
        } else {
            before.push(entries.last())
        }
    }
}

/// A search path without a directory; empty where there is no search path.
pub open spec fn path_without(path: Option<Vec<u8>>, dir: Seq<u8>) -> Seq<u8> {
    match path {
        Some(p) => joined(without_dir(pieces(p@, COLON), dir), COLON),
        None => Seq::empty(),
    }
}

/// A search path without the directory of the `kubectl` wrapper.
pub fn filtered_path(path: &Option<Vec<u8>>, wrapper_dir: &UnixPath) -> (r: Vec<u8>)
    ensures
        r@ == path_without(*path, wrapper_dir@),
{
    let mut out: Vec<u8> = Vec::new();
    let p: &Vec<u8> = match path {
        Some(p) => p,
        None => {
            return out;
        },
    };
    let entries: Vec<Vec<u8>> = split_bytes(p, COLON);
    let ghost all = pieces(p@, COLON);
    let ghost mut kept: Seq<Seq<u8>> = Seq::empty();
    let mut first: bool = true;
    let mut i: usize = 0;
    assert(all.take(0) =~= Seq::<Seq<u8>>::empty());
    while i < entries.len()
        invariant
            i <= entries.len(),
            all == byte_lists(entries@),
            kept == without_dir(all.take(i as int), wrapper_dir@),
            first == (kept.len() == 0),
            out@ == joined(kept, COLON),
        decreases entries.len() - i,
    {
        let entry: UnixPath = UnixPath { bytes: copy_bytes(&entries[i]) };
        let ghost now = all.take(i + 1);
        let ghost before = out@;
        assert(now.drop_last() =~= all.take(i as int));
        assert(now.last() == entry@);
        if !entry.same_steps(wrapper_dir) {
            if !first {
                out.push(COLON);
            }
            push_bytes(&mut out, &entry.bytes);
            proof {
                let longer = kept.push(entry@);
                assert(longer.drop_last() =~= kept);
                if kept.len() == 0 {
                    assert(out@ =~= entry@);
                    assert(joined(longer, COLON) == longer[0]);
                } else {
                    assert(out@ =~= before.push(COLON) + entry@);
                }
                kept = longer;
            }
            first = false;
        }
        i = i + 1;
    }
    assert(all.take(i as int) =~= all);
    out
}

/// The places where a search path finds `kubectl`.
pub open spec fn kubectl_places(path: Seq<u8>) -> Seq<Seq<u8>> {
    Seq::new(pieces(path, COLON).len(), |i: int| join_text(pieces(path, COLON)[i], "kubectl"@))
}

/// The places where a search path finds `kubectl`, in order. An unset search
/// path counts as an empty one.
pub fn kubectl_candidates(path: &Option<Vec<u8>>) -> (r: Vec<UnixPath>)
    ensures
        path_list(r@) == kubectl_places(
            match *path {
                Some(p) => p@,
                None => Seq::<u8>::empty(),
            },
        ),
{
    let bytes: Vec<u8> = match path {
        Some(p) => copy_bytes(p),
        None => Vec::new(),
    };
    assert(path is None ==> bytes@ =~= Seq::<u8>::empty());
    let entries: Vec<Vec<u8>> = split_bytes(&bytes, COLON);
    let ghost dirs = pieces(bytes@, COLON);
    let mut r: Vec<UnixPath> = Vec::new();
    let mut i: usize = 0;
    while i < entries.len()
        invariant
            i <= entries.len(),
            dirs == byte_lists(entries@),
            r.len() == i,
            forall|j: int| 0 <= j < i ==> (#[trigger] r@[j])@ == join_text(dirs[j], "kubectl"@),
        decreases entries.len() - i,
    {
        let dir: UnixPath = UnixPath { bytes: copy_bytes(&entries[i]) };
        r.push(dir.join("kubectl"));
        i = i + 1;
    }
    assert(path_list(r@) =~= kubectl_places(bytes@));
    r
}

/// What stands at a place.
#[derive(Debug)]
pub struct Candidate {
    pub path: UnixPath,
    pub is_file: bool,
    /// Its canonical path, where it is known.
    pub canonical: Option<UnixPath>,
}

impl Candidate {
    /// Whether this is a `kubectl` other than the wrapper.
    pub open spec fn is_real(self, wrapper: Option<UnixPath>) -> bool {
        self.is_file && !same_way(self.canonical, wrapper)
    }
}

/// Whether `r` is the `kubectl` to run, or says that there is none.
pub open spec fn resolves_kubectl(
    configured: Option<Vec<u8>>,
    candidates: Seq<Candidate>,
    wrapper: Option<UnixPath>,
    r: Result<UnixPath, String>,
) -> bool {
    match configured {
        Some(bytes) => r matches Ok(path) && path@ == bytes@,
        None => match r {
            Ok(path) => exists|i: int|
                0 <= i < candidates.len() && (#[trigger] candidates[i]).is_real(wrapper) && path@
                    == candidates[i].path@ && forall|j: int|
                    0 <= j < i ==> !(#[trigger] candidates[j]).is_real(wrapper),
            Err(e) => e@
                == "could not find a real kubectl binary on PATH; install kubectl or set OPENSHELL_GATEWAY_KUBECTL"@
                && forall|j: int|
                0 <= j < candidates.len() ==> !(#[trigger] candidates[j]).is_real(wrapper),
        },
    }
}

/// The `kubectl` to run: the one that is configured, else the first real one
/// among the candidates.
pub fn resolve_kubectl_binary(
    configured: &Option<Vec<u8>>,
    candidates: &Vec<Candidate>,
    wrapper: &Option<UnixPath>,
) -> (r: Result<UnixPath, String>)
    ensures
        resolves_kubectl(*configured, candidates@, *wrapper, r),
{
    match configured {
        Some(bytes) => {
            return Ok(UnixPath { bytes: copy_bytes(bytes) });
        },
        None => {},
    }
    let mut i: usize = 0;
    while i < candidates.len()
        invariant
            i <= candidates.len(),
            *configured is None,
            forall|j: int| 0 <= j < i ==> !(#[trigger] candidates@[j]).is_real(*wrapper),
        decreases candidates.len() - i,
    {
        let c: &Candidate = &candidates[i];
        if c.is_file && !is_openshell_kubectl_wrapper(&c.canonical, wrapper) {
            assert(candidates@[i as int].is_real(*wrapper));
            return Ok(c.path.clone());
        }
        i = i + 1;
    }
    Err(
        owned(
            "could not find a real kubectl binary on PATH; install kubectl or set OPENSHELL_GATEWAY_KUBECTL",
        ),
    )
}

// ---------------------------------------------------------------------
// Environment
// ---------------------------------------------------------------------
/// The variables of the gateway's own environment that a command may see.
#[derive(Debug)]
pub struct HostEnv {
    pub home: Option<Vec<u8>>,
    pub term: Option<Vec<u8>>,
    pub colorterm: Option<Vec<u8>>,
    pub no_color: Option<Vec<u8>>,
    pub lang: Option<Vec<u8>>,
    pub lc_all: Option<Vec<u8>>,
    pub lc_ctype: Option<Vec<u8>>,
    pub tmpdir: Option<Vec<u8>>,
    pub path: Option<Vec<u8>>,
}

/// A variable where it is set.
pub open spec fn inherit(name: Seq<char>, value: Option<Vec<u8>>) -> Seq<(Seq<char>, Seq<u8>)> {
    match value {
        Some(v) => seq![(name, v@)],
        None => Seq::empty(),
    }
}

/// The environment of a command, which begins empty.
pub open spec fn clean_env(
    kubeconfig: Seq<u8>,
    host: HostEnv,
    wrapper_dir: Seq<u8>,
) -> Seq<(Seq<char>, Seq<u8>)> {
    seq![("KUBECONFIG"@, kubeconfig)] + inherit("HOME"@, host.home) + inherit("TERM"@, host.term)
        + inherit("COLORTERM"@, host.colorterm) + inherit("NO_COLOR"@, host.no_color) + inherit(
        "LANG"@,
        host.lang,
    ) + inherit("LC_ALL"@, host.lc_all) + inherit("LC_CTYPE"@, host.lc_ctype) + inherit(
        "TMPDIR"@,
        host.tmpdir,
    ) + seq![("PATH"@, path_without(host.path, wrapper_dir))]
}

/// The values in a list of variables.
pub open spec fn env_views(list: Seq<(String, Vec<u8>)>) -> Seq<(Seq<char>, Seq<u8>)> {
    Seq::new(list.len(), |i: int| (list[i].0@, list[i].1@))
}

fn push_var(list: &mut Vec<(String, Vec<u8>)>, name: &str, value: Vec<u8>)
    ensures
        env_views(final(list)@) == env_views(old(list)@).push((name@, value@)),
{
    let ghost before = list@;
    list.push((owned(name), value));
    assert(env_views(list@) =~= env_views(before).push((name@, value@)));
}

fn push_inherited(list: &mut Vec<(String, Vec<u8>)>, name: &str, value: &Option<Vec<u8>>)
    ensures
        env_views(final(list)@) == env_views(old(list)@) + inherit(name@, *value),
{
    let ghost before = env_views(list@);
    match value {
        Some(v) => {
            push_var(list, name, copy_bytes(v));
            assert(env_views(list@) =~= before + inherit(name@, *value));
        },
        None => {
            assert(before =~= before + inherit(name@, *value));
        },
    }
}

/// The environment of a command: the kubeconfig, the terminal and locale
/// variables that are set, and a search path without the `kubectl` wrapper.
pub fn configure_clean_env(
    kubeconfig: &UnixPath,
    host: &HostEnv,
    wrapper_dir: &UnixPath,
) -> (r: Vec<(String, Vec<u8>)>)
    ensures
        env_views(r@) == clean_env(kubeconfig@, *host, wrapper_dir@),
{
    let mut list: Vec<(String, Vec<u8>)> = Vec::new();
    assert(env_views(list@) =~= Seq::<(Seq<char>, Seq<u8>)>::empty());
    push_var(&mut list, "KUBECONFIG", copy_bytes(&kubeconfig.bytes));
    assert(env_views(list@) =~= seq![("KUBECONFIG"@, kubeconfig@)]);
    push_inherited(&mut list, "HOME", &host.home);
    push_inherited(&mut list, "TERM", &host.term);
    push_inherited(&mut list, "COLORTERM", &host.colorterm);
    push_inherited(&mut list, "NO_COLOR", &host.no_color);
    push_inherited(&mut list, "LANG", &host.lang);
    push_inherited(&mut list, "LC_ALL", &host.lc_all);
    push_inherited(&mut list, "LC_CTYPE", &host.lc_ctype);
    push_inherited(&mut list, "TMPDIR", &host.tmpdir);
    let ghost before = env_views(list@);
    push_var(&mut list, "PATH", filtered_path(&host.path, wrapper_dir));
    assert(env_views(list@) =~= before + seq![
        ("PATH"@, path_without(host.path, wrapper_dir@)),
    ]);
    list
}

// ---------------------------------------------------------------------
// Running a command
// ---------------------------------------------------------------------
/// A command to run.
#[derive(Debug)]
pub struct ExecPlan {
    pub program: UnixPath,
    pub args: Vec<Vec<u8>>,
    pub env: Vec<(String, Vec<u8>)>,
}

/// Whether an argument gives `kubectl` a kubeconfig.
pub open spec fn gives_kubeconfig(arg: Seq<char>) -> bool {
    arg == "--kubeconfig"@ || "--kubeconfig="@.is_prefix_of(arg)
}

/// Whether one of the arguments gives `kubectl` a kubeconfig.
pub open spec fn has_kubeconfig(args: Seq<Seq<char>>) -> bool {
    exists|i: int| 0 <= i < args.len() && gives_kubeconfig(#[trigger] args[i])
}

/// The arguments of a command: those that were given, for `kubectl` with the
/// gateway's kubeconfig in front where none of them gives one.
pub open spec fn command_args(command: Seq<Seq<char>>, kubeconfig: Seq<u8>) -> Seq<Seq<u8>> {
    let rest = command.skip(1);
    if command[0] == "kubectl"@ && !has_kubeconfig(rest) {
        seq![encode_utf8("--kubeconfig"@), kubeconfig] + encoded(rest)
    } else {
        encoded(rest)
    }
}

fn any_kubeconfig(command: &Vec<String>) -> (r: bool)
    requires
        command@.len() > 0,
    ensures
        r == has_kubeconfig(texts(command@).skip(1)),
{
    let ghost rest = texts(command@).skip(1);
    let mut i: usize = 1;
    while i < command.len()
        invariant
            1 <= i <= command.len(),
            rest == texts(command@).skip(1),
            forall|j: int| 0 <= j < i - 1 ==> !gives_kubeconfig(#[trigger] rest[j]),
        decreases command.len() - i,
    {
        assert(rest[i - 1] == command@[i as int]@);
        if same_text(command[i].as_str(), "--kubeconfig") || starts_with(
            command[i].as_str(),
            "--kubeconfig=",
        ) {
            assert(gives_kubeconfig(rest[i - 1]));
            return true;
        }
        i = i + 1;
    }
    false
}

/// Whether `r` is how a command of the host is run against the gateway's cluster,
/// or why it is not.
pub open spec fn runs(
    command: Seq<Seq<char>>,
    kubeconfig: Seq<u8>,
    is_file: bool,
    kubectl: Result<UnixPath, String>,
    host: HostEnv,
    wrapper_dir: Seq<u8>,
    r: Result<ExecPlan, String>,
) -> bool {
    if !is_file {
        r matches Err(e) && e@ == "gateway kubeconfig not found: "@ + lossy_text(kubeconfig)
            + "\nStart the VM first with `gateway` or `mise run vm`."@
    } else if command[0] == "kubectl"@ && kubectl is Err {
        r == Err::<ExecPlan, String>(kubectl->Err_0)
    } else {
        r matches Ok(plan) && plan.program@ == (if command[0] == "kubectl"@ {
            (kubectl->Ok_0)@
        } else {
            encode_utf8(command[0])
        }) && byte_lists(plan.args@) == command_args(command, kubeconfig) && env_views(plan.env@)
            == clean_env(kubeconfig, host, wrapper_dir)
    }
}

/// How to run a command of the host against the gateway's cluster. `kubectl` is
/// the binary that stands for a command of that name, or why there is none; it
/// plays no role for other commands. `is_file` says whether the kubeconfig is a
/// file.
pub fn exec_with_gateway_kubeconfig(
    command: &Vec<String>,
    kubeconfig: &UnixPath,
    is_file: bool,
    kubectl: Result<UnixPath, String>,
    host: &HostEnv,
    wrapper_dir: &UnixPath,
) -> (r: Result<ExecPlan, String>)
    requires
        command@.len() > 0,
    ensures
        runs(texts(command@), kubeconfig@, is_file, kubectl, *host, wrapper_dir@, r),
{
    if !is_file {
        return Err(
            concat3(
                "gateway kubeconfig not found: ",
                kubeconfig.display().as_str(),
                "\nStart the VM first with `gateway` or `mise run vm`.",
            ),
        );
    }
    let is_kubectl: bool = same_text(command[0].as_str(), "kubectl");
    let program: UnixPath = if is_kubectl {
        match kubectl {
            Ok(path) => path,
            Err(e) => {
                return Err(e);
            },
        }
    } else {
        UnixPath::new(command[0].as_str())
    };
    let ghost all = texts(command@);
    let ghost rest = all.skip(1);
    let mut args: Vec<Vec<u8>> = Vec::new();
    if is_kubectl && !any_kubeconfig(command) {
        args.push("--kubeconfig".as_bytes_vec());
        args.push(copy_bytes(&kubeconfig.bytes));
    }
    let ghost head = byte_lists(args@);
    assert(head =~= (if all[0] == "kubectl"@ && !has_kubeconfig(rest) {
        seq![encode_utf8("--kubeconfig"@), kubeconfig@]
    } else {
        Seq::<Seq<u8>>::empty()
    }));
    let mut i: usize = 1;
    assert(head + encoded(rest).take(0) =~= head);
    while i < command.len()
        invariant
            1 <= i <= command.len(),
            all == texts(command@),
            rest == all.skip(1),
            byte_lists(args@) == head + encoded(rest).take(i - 1),
        decreases command.len() - i,
    {
        let ghost before = args@;
        args.push(command[i].as_str().as_bytes_vec());
        assert(rest[i - 1] == command@[i as int]@);
        assert(byte_lists(args@) =~= byte_lists(before).push(encoded(rest)[i - 1]));
        assert(encoded(rest).take(i as int) =~= encoded(rest).take(i - 1).push(
            encoded(rest)[i - 1],
        ));
        assert(byte_lists(args@) =~= head + encoded(rest).take(i as int));
        i = i + 1;
    }
    assert(encoded(rest).take(i - 1) =~= encoded(rest));
    assert(byte_lists(args@) =~= command_args(all, kubeconfig@));
    Ok(ExecPlan { program, args, env: configure_clean_env(kubeconfig, host, wrapper_dir) })
}

/// The exit code of a command; 1 where a signal ended it.
pub fn command_exit_code(code: Option<i32>) -> (r: i32)
    ensures
        r == given_or(code, 1),
{
    match code {
        Some(c) => c,
        None => 1,
    }
}

// ---------------------------------------------------------------------
// Laws
// ---------------------------------------------------------------------
proof fn lemma_without_dir(entries: Seq<Seq<u8>>, dir: Seq<u8>)
    ensures
        forall|i: int|
            0 <= i < without_dir(entries, dir).len() ==> components(
                #[trigger] without_dir(entries, dir)[i],
            ) != components(dir) && entries.contains(without_dir(entries, dir)[i]),
    decreases entries.len(),
{
    if entries.len() > 0 {
        let front = entries.drop_last();
        lemma_without_dir(front, dir);
        let list = without_dir(entries, dir);
        assert forall|i: int| 0 <= i < list.len() implies components(#[trigger] list[i])
            != components(dir) && entries.contains(list[i]) by {
            if i < without_dir(front, dir).len() {
                assert(list[i] == without_dir(front, dir)[i]);
                let k = choose|k: int| 0 <= k < front.len() && front[k] == list[i];
                assert(entries[k] == list[i]);
            } else {
                assert(entries[entries.len() - 1] == list[i]);
            }
        }
    }
}

/// The wrapper is not found: no directory on the search path of a command leads
/// to the wrapper's, where that directory is not the current one.
pub proof fn law_wrapper_off_path(path: Option<Vec<u8>>, dir: Seq<u8>, i: int)
    requires
        components(dir).len() > 0,
        0 <= i < pieces(path_without(path, dir), COLON).len(),
    ensures
        components(pieces(path_without(path, dir), COLON)[i]) != components(dir),
{
    let none = Seq::<u8>::empty();
    assert(components(none) =~= Seq::<crate::path::Part<Seq<u8>>>::empty()) by {
        reveal_with_fuel(crate::path::parts_of, 2);
        assert(pieces(none, crate::path::SLASH).drop_last() =~= Seq::<Seq<u8>>::empty());
    }
    match path {
        Some(p) => {
            let all = pieces(p@, COLON);
            let list = without_dir(all, dir);
            lemma_without_dir(all, dir);
            crate::text::lemma_pieces(p@, COLON);
            if list.len() == 0 {
                assert(path_without(path, dir) =~= none);
                assert(pieces(none, COLON)[i] =~= none);
            } else {
                assert forall|j: int| 0 <= j < list.len() implies !(#[trigger] list[j]).contains(
                    COLON,
                ) by {
                    assert(all.contains(list[j]));
                    let k = choose|k: int| 0 <= k < all.len() && all[k] == list[j];
                    assert(!all[k].contains(COLON));
                }
                crate::text::lemma_pieces_of_joined(list, COLON);
            }
        },
        None => {
            assert(pieces(none, COLON)[i] =~= none);
        },
    }
}

/// `kubectl` always gets a kubeconfig: the one that its arguments give, else the
/// gateway's, ahead of them.
pub proof fn law_kubectl_has_kubeconfig(command: Seq<Seq<char>>, kubeconfig: Seq<u8>)
    requires
        command.len() > 0,
        command[0] == "kubectl"@,
    ensures
        has_kubeconfig(command.skip(1)) ==> command_args(command, kubeconfig) == encoded(
            command.skip(1),
        ),
        !has_kubeconfig(command.skip(1)) ==> command_args(command, kubeconfig).take(2) == seq![
            encode_utf8("--kubeconfig"@),
            kubeconfig,
        ],
{
    if !has_kubeconfig(command.skip(1)) {
        assert(command_args(command, kubeconfig).take(2) =~= seq![
            encode_utf8("--kubeconfig"@),
            kubeconfig,
        ]);
    }
}

/// The options of a run reach the VM: the root file system, the CPUs, the memory
/// and the log level that are given are the VM's; the network goes by its name;
/// a given executable runs with its own arguments, environment, working
/// directory and ports; and the gateway runs with the ports that are given, with
/// its own where none are.
pub proof fn law_options_reach_the_vm(args: RunArgs, defaults: RunDefaults, config: VmConfig)
    requires
        vm_for(args, defaults, config),
    ensures
        args.rootfs matches Some(path) ==> config.rootfs@ == path@,
        args.rootfs is None ==> (defaults.rootfs matches Ok(path) && config.rootfs@ == path@),
        args.vcpus matches Some(n) ==> config.vcpus == n,
        args.mem matches Some(n) ==> config.mem_mib == n,
        config.log_level == args.krun_log_level,
        args.net@ == "tsi"@ <==> config.net is Tsi,
        args.net@ == "none"@ <==> config.net is Disabled,
        args.net@ == "gvproxy"@ <==> config.net is Gvproxy,
        config.net matches NetBackend::Gvproxy { binary } ==> binary@ == defaults.gvproxy@,
        args.exec_path matches Some(path) ==> config.exec_path@ == path@ && config.args@
            == args.args@ && config.env@ == args.env@ && config.workdir@ == args.workdir@
            && config.port_map@ == args.port@ && (args.vcpus is None ==> config.vcpus == 2) && (
        args.mem is None ==> config.mem_mib == 2048),
        args.exec_path is None ==> config.exec_path@ == "/srv/gateway-init.sh"@ && (args.port@.len()
            > 0 ==> texts(config.port_map@) == texts(args.port@)) && (args.port@.len() == 0
            ==> texts(config.port_map@) == seq!["6443:6444"@, "30051:30051"@]) && (args.vcpus
            is None ==> config.vcpus == 4) && (args.mem is None ==> config.mem_mib == 8192)
            && config.args@.len() == 0 && config.workdir@ == "/"@ && texts(config.env@) == seq![
            "HOME=/root"@,
            "PATH=/usr/local/sbin:/usr/local/bin:/usr/sbin:/usr/bin:/sbin:/bin"@,
            "TERM=xterm"@,
        ],
        config.console_output is None,
{
    reveal_strlit("tsi");
    reveal_strlit("none");
    reveal_strlit("gvproxy");
    assert("tsi"@[0] == 't' && "none"@[0] == 'n' && "gvproxy"@[0] == 'g');
}

/// From the command line to libkrun: a run with an executable of its own tells
/// libkrun that executable, its arguments and its working directory, and every
/// run tells it the CPUs and the memory that are given.
pub proof fn law_options_reach_libkrun(
    args: RunArgs,
    defaults: RunDefaults,
    config: VmConfig,
    i: int,
)
    requires
        vm_for(args, defaults, config),
        0 <= i < launch_acts(config).len(),
    ensures
        launch_acts(config)[i] matches Act::SetWorkdir(dir) ==> (args.exec_path is Some ==> dir
            == encode_utf8(args.workdir@)),
        launch_acts(config)[i] matches Act::SetExec(program, argv, _) ==> (args.exec_path matches
            Some(path) ==> program == encode_utf8(path@) && same_texts(argv, args.args@)),
        launch_acts(config)[i] matches Act::SetVmConfig(vcpus, mem_mib) ==> (args.vcpus matches
            Some(n) ==> vcpus == n) && (args.mem matches Some(n) ==> mem_mib == n),
        launch_acts(config)[i] matches Act::SetRoot(root) ==> (args.rootfs matches Some(path)
            ==> root == path@),
        launch_acts(config)[i] matches Act::SetPortMap(entries) ==> (args.port@.len() > 0
            && args.exec_path is Some ==> same_texts(entries, args.port@)),
{
    law_options_reach_the_vm(args, defaults, config);
    law_launch_carries_the_config(config, i);
}

/// The gateway's kubeconfig is `.kube/gateway.yaml` below the home directory,
/// where a running gateway leaves it.
pub proof fn law_kubeconfig_file(home: Seq<char>, set: Option<String>)
    ensures
        components(kubeconfig_file(home)) == components(encode_utf8(home)).push(
            Part::Name(encode_utf8(".kube"@)),
        ).push(Part::Name(encode_utf8("gateway.yaml"@))),
        set matches Some(h) ==> (h@ == home ==> kubeconfig_file(home) == join_text(
            crate::vm::running::kube_dir(set),
            "gateway.yaml"@,
        )),
{
    reveal_strlit(".kube");
    reveal_strlit("gateway.yaml");
    law_join_adds_a_step(encode_utf8(home), ".kube"@);
    law_join_adds_a_step(join_text(encode_utf8(home), ".kube"@), "gateway.yaml"@);
}

/// Only the wrapper's directory leaves the search path: every other directory
/// stays, in its place among the others.
pub proof fn law_path_keeps_the_rest(entries: Seq<Seq<u8>>, dir: Seq<u8>)
    ensures
        without_dir(entries, dir) == entries.filter(
            |entry: Seq<u8>| components(entry) != components(dir),
        ),
    decreases entries.len(),
{
    reveal_with_fuel(Seq::filter, 2);
    if entries.len() > 0 {
        law_path_keeps_the_rest(entries.drop_last(), dir);
    }
}

/// The search path of a command is the host's without the wrapper's directory,
/// entry by entry.
pub proof fn law_search_path(path: Vec<u8>, dir: Seq<u8>)
    requires
        exists|i: int|
            0 <= i < pieces(path@, COLON).len() && components(#[trigger] pieces(path@, COLON)[i])
                != components(dir),
    ensures
        pieces(path_without(Some(path), dir), COLON) == pieces(path@, COLON).filter(
            |entry: Seq<u8>| components(entry) != components(dir),
        ),
{
    let all = pieces(path@, COLON);
    let list = without_dir(all, dir);
    law_path_keeps_the_rest(all, dir);
    lemma_without_dir(all, dir);
    crate::text::lemma_pieces(path@, COLON);
    let i = choose|i: int| 0 <= i < all.len() && components(#[trigger] all[i]) != components(dir);
    lemma_without_dir_keeps(all, dir, i);
    assert forall|j: int| 0 <= j < list.len() implies !(#[trigger] list[j]).contains(COLON) by {
        assert(all.contains(list[j]));
        let k = choose|k: int| 0 <= k < all.len() && all[k] == list[j];
        assert(!all[k].contains(COLON));
    }
    crate::text::lemma_pieces_of_joined(list, COLON);
}

proof fn lemma_without_dir_keeps(entries: Seq<Seq<u8>>, dir: Seq<u8>, i: int)
    requires
        0 <= i < entries.len(),
        components(entries[i]) != components(dir),
    ensures
        without_dir(entries, dir).contains(entries[i]),
    decreases entries.len(),
{
    let front = entries.drop_last();
    let list = without_dir(entries, dir);
    if i < front.len() {
        lemma_without_dir_keeps(front, dir, i);
        let before = without_dir(front, dir);
        let k = choose|k: int| 0 <= k < before.len() && before[k] == front[i];
        assert(list[k] == entries[i]);
    } else {
        assert(list.last() == entries[i]);
        assert(list[list.len() - 1] == entries[i]);
    }
}

/// `kubectl` is looked for in every directory of the search path, in order.
pub proof fn law_kubectl_places(path: Seq<u8>)
    ensures
        kubectl_places(path).len() == pieces(path, COLON).len(),
        forall|i: int|
            0 <= i < pieces(path, COLON).len() ==> components(#[trigger] kubectl_places(path)[i])
                == components(pieces(path, COLON)[i]).push(Part::Name(encode_utf8("kubectl"@))),
{
    reveal_strlit("kubectl");
    assert forall|i: int| 0 <= i < pieces(path, COLON).len() implies components(
        #[trigger] kubectl_places(path)[i],
    ) == components(pieces(path, COLON)[i]).push(Part::Name(encode_utf8("kubectl"@))) by {
        law_join_adds_a_step(pieces(path, COLON)[i], "kubectl"@);
    }
}

/// Whether a variable is inherited from the host with a value.
pub open spec fn inherits(
    name: Seq<char>,
    value: Seq<u8>,
    want: Seq<char>,
    host: Option<Vec<u8>>,
) -> bool {
    name == want && (host matches Some(v) && value == v@)
}

/// The environment of a command is clean: the gateway's kubeconfig, the filtered
/// search path, and of the host's variables just these, each with the host's own
/// value, where the host has them.
pub proof fn law_clean_env(
    kubeconfig: Seq<u8>,
    host: HostEnv,
    wrapper_dir: Seq<u8>,
    name: Seq<char>,
    value: Seq<u8>,
)
    ensures
        clean_env(kubeconfig, host, wrapper_dir).contains((name, value)) <==> {
            ||| name == "KUBECONFIG"@ && value == kubeconfig
            ||| inherits(name, value, "HOME"@, host.home)
            ||| inherits(name, value, "TERM"@, host.term)
            ||| inherits(name, value, "COLORTERM"@, host.colorterm)
            ||| inherits(name, value, "NO_COLOR"@, host.no_color)
            ||| inherits(name, value, "LANG"@, host.lang)
            ||| inherits(name, value, "LC_ALL"@, host.lc_all)
            ||| inherits(name, value, "LC_CTYPE"@, host.lc_ctype)
            ||| inherits(name, value, "TMPDIR"@, host.tmpdir)
            ||| name == "PATH"@ && value == path_without(host.path, wrapper_dir)
        },
{
    let x = (name, value);
    let a = seq![("KUBECONFIG"@, kubeconfig)];
    let p = seq![("PATH"@, path_without(host.path, wrapper_dir))];
    let b = inherit("HOME"@, host.home);
    let c = inherit("TERM"@, host.term);
    let d = inherit("COLORTERM"@, host.colorterm);
    let e = inherit("NO_COLOR"@, host.no_color);
    let f = inherit("LANG"@, host.lang);
    let g = inherit("LC_ALL"@, host.lc_all);
    let h = inherit("LC_CTYPE"@, host.lc_ctype);
    let i = inherit("TMPDIR"@, host.tmpdir);
    lemma_env_contains(a, b, x);
    lemma_env_contains(a + b, c, x);
    lemma_env_contains(a + b + c, d, x);
    lemma_env_contains(a + b + c + d, e, x);
    lemma_env_contains(a + b + c + d + e, f, x);
    lemma_env_contains(a + b + c + d + e + f, g, x);
    lemma_env_contains(a + b + c + d + e + f + g, h, x);
    lemma_env_contains(a + b + c + d + e + f + g + h, i, x);
    lemma_env_contains(a + b + c + d + e + f + g + h + i, p, x);
    lemma_inherits(name, value, "HOME"@, host.home);
    lemma_inherits(name, value, "TERM"@, host.term);
    lemma_inherits(name, value, "COLORTERM"@, host.colorterm);
    lemma_inherits(name, value, "NO_COLOR"@, host.no_color);
    lemma_inherits(name, value, "LANG"@, host.lang);
    lemma_inherits(name, value, "LC_ALL"@, host.lc_all);
    lemma_inherits(name, value, "LC_CTYPE"@, host.lc_ctype);
    lemma_inherits(name, value, "TMPDIR"@, host.tmpdir);
    assert(a[0] == ("KUBECONFIG"@, kubeconfig));
    assert(p[0] == ("PATH"@, path_without(host.path, wrapper_dir)));
}

proof fn lemma_env_contains(
    a: Seq<(Seq<char>, Seq<u8>)>,
    b: Seq<(Seq<char>, Seq<u8>)>,
    x: (Seq<char>, Seq<u8>),
)
    ensures
        (a + b).contains(x) <==> a.contains(x) || b.contains(x),
{
    let all = a + b;
    if a.contains(x) {
        let i = choose|i: int| 0 <= i < a.len() && a[i] == x;
        assert(all[i] == x);
    }
    if b.contains(x) {
        let i = choose|i: int| 0 <= i < b.len() && b[i] == x;
        assert(all[a.len() + i] == x);
    }
    if all.contains(x) {
        let i = choose|i: int| 0 <= i < all.len() && all[i] == x;
        if i < a.len() {
            assert(a[i] == x);
        } else {
            assert(b[i - a.len()] == x);
        }
    }
}

proof fn lemma_inherits(name: Seq<char>, value: Seq<u8>, want: Seq<char>, host: Option<Vec<u8>>)
    ensures
        inherit(want, host).contains((name, value)) <==> inherits(name, value, want, host),
{
    match host {
        Some(v) => {
            assert(inherit(want, host)[0] == (want, v@));
        },
        None => {},
    }
}

/// A command gets its own arguments, each whole and in order. In front of them
/// stands the gateway's kubeconfig where the command is `kubectl` and none of
/// its arguments is `--kubeconfig` or begins with `--kubeconfig=`; for every
/// other command nothing is added.
pub proof fn law_command_args(command: Seq<Seq<char>>, kubeconfig: Seq<u8>)
    requires
        command.len() > 0,
    ensures
        ({
            let args = command_args(command, kubeconfig);
            let added = args.len() - (command.len() - 1);
            &&& forall|i: int|
                1 <= i < command.len() ==> args[added + i - 1] == encode_utf8(#[trigger] command[i])
            &&& added == 0 || (added == 2 && args[0] == encode_utf8("--kubeconfig"@) && args[1]
                == kubeconfig)
            &&& added == 2 <==> command[0] == "kubectl"@ && forall|i: int|
                1 <= i < command.len() ==> #[trigger] command[i] != "--kubeconfig"@
                    && !"--kubeconfig="@.is_prefix_of(command[i])
        }),
{
    let rest = command.skip(1);
    let args = command_args(command, kubeconfig);
    if has_kubeconfig(rest) {
        let i = choose|i: int| 0 <= i < rest.len() && gives_kubeconfig(#[trigger] rest[i]);
        assert(command[i + 1] == rest[i]);
    } else {
        assert forall|i: int| 1 <= i < command.len() implies #[trigger] command[i]
            != "--kubeconfig"@ && !"--kubeconfig="@.is_prefix_of(command[i]) by {
            assert(rest[i - 1] == command[i]);
            assert(!gives_kubeconfig(rest[i - 1]));
        }
    }
    assert forall|i: int| 1 <= i < command.len() implies args[args.len() - (command.len() - 1) + i
        - 1] == encode_utf8(#[trigger] command[i]) by {
        assert(encoded(rest)[i - 1] == encode_utf8(rest[i - 1]));
    }
}

/// A command is run exactly where the kubeconfig is there and, for `kubectl`, a
/// binary was found: `kubectl` by that binary, every other command by its own
/// name. Else the text names the kubeconfig, or is the reason why there is no
/// binary.
pub proof fn law_command_runs(
    command: Seq<Seq<char>>,
    kubeconfig: Seq<u8>,
    is_file: bool,
    kubectl: Result<UnixPath, String>,
    host: HostEnv,
    wrapper_dir: Seq<u8>,
    r: Result<ExecPlan, String>,
)
    requires
        command.len() > 0,
        runs(command, kubeconfig, is_file, kubectl, host, wrapper_dir, r),
    ensures
        r is Ok <==> is_file && (command[0] == "kubectl"@ ==> kubectl is Ok),
        r matches Ok(plan) ==> {
            &&& command[0] != "kubectl"@ ==> plan.program@ == encode_utf8(command[0])
            &&& command[0] == "kubectl"@ ==> (kubectl matches Ok(binary) && plan.program@
                == binary@)
            &&& byte_lists(plan.args@) == command_args(command, kubeconfig)
            &&& env_views(plan.env@) == clean_env(kubeconfig, host, wrapper_dir)
        },
        !is_file ==> (r matches Err(e) && occurs_in(lossy_text(kubeconfig), e@)),
        is_file ==> (r matches Err(e) ==> (kubectl matches Err(why) && e == why)),
{
    if !is_file {
        lemma_occurs(
            "gateway kubeconfig not found: "@,
            lossy_text(kubeconfig),
            "\nStart the VM first with `gateway` or `mise run vm`."@,
        );
    }
}

/// Which candidate for `kubectl` is real: a file that is not the workspace's
/// wrapper, by the steps of their canonical paths.
pub proof fn law_real_kubectl(candidate: Candidate, wrapper: Option<UnixPath>)
    ensures
        !candidate.is_file ==> !candidate.is_real(wrapper),
        match (candidate.canonical, wrapper) {
            (Some(x), Some(y)) => candidate.is_real(wrapper) <==> candidate.is_file && components(
                x@,
            ) != components(y@),
            (None, None) => !candidate.is_real(wrapper),
            _ => candidate.is_real(wrapper) <==> candidate.is_file,
        },
{
}

/// Without a search path of the host, a command has an empty one.
pub proof fn law_no_search_path(dir: Seq<u8>)
    ensures
        path_without(None, dir).len() == 0,
{
}

/// Which `kubectl` is run: the configured one, whatever the search path holds; else
/// the first real one on the search path; and none is found only where no
/// candidate is real.
pub proof fn law_kubectl_choice(
    configured: Option<Vec<u8>>,
    candidates: Seq<Candidate>,
    wrapper: Option<UnixPath>,
    r: Result<UnixPath, String>,
    k: int,
)
    requires
        resolves_kubectl(configured, candidates, wrapper, r),
    ensures
        configured matches Some(bytes) ==> (r matches Ok(path) && path@ == bytes@),
        configured is None && 0 <= k < candidates.len() && candidates[k].is_real(wrapper)
            && (forall|j: int| 0 <= j < k ==> !(#[trigger] candidates[j]).is_real(wrapper)) ==> (
        r matches Ok(path) && path@ == candidates[k].path@),
        r is Err ==> configured is None && forall|j: int|
            0 <= j < candidates.len() ==> !(#[trigger] candidates[j]).is_real(wrapper),
{
    if configured is None && r is Ok {
        let path = r->Ok_0;
        let i = choose|i: int|
            0 <= i < candidates.len() && (#[trigger] candidates[i]).is_real(wrapper) && path@
                == candidates[i].path@ && forall|j: int|
                0 <= j < i ==> !(#[trigger] candidates[j]).is_real(wrapper);
        if 0 <= k < candidates.len() && candidates[k].is_real(wrapper) && (forall|j: int|
            0 <= j < k ==> !(#[trigger] candidates[j]).is_real(wrapper)) {
            assert(!(i < k));
            assert(!(k < i));
        }
    }
}

/// A variable is known by its own name and value.
pub proof fn law_env_views(list: Seq<(String, Vec<u8>)>)
    ensures
        env_views(list).len() == list.len(),
        forall|i: int|
            0 <= i < list.len() ==> (#[trigger] env_views(list)[i]).0 == list[i].0@ && env_views(
                list,
            )[i].1 == list[i].1@,
{
}

/// When a run is refused: the network has none of the three names, and the text
/// holds the name that it has; or no root file system is given and the default is
/// not known, and the text is the reason. Every other run has a VM.
pub proof fn law_run_refusals(args: RunArgs, defaults: RunDefaults, r: Result<VmConfig, String>)
    requires
        run_means(args, defaults, r),
    ensures
        r is Ok <==> (args.net@ == "tsi"@ || args.net@ == "none"@ || args.net@ == "gvproxy"@) && (
        args.rootfs is Some || defaults.rootfs is Ok),
        r matches Err(e) ==> (if args.net@ == "tsi"@ || args.net@ == "none"@ || args.net@
            == "gvproxy"@ {
            defaults.rootfs matches Err(why) && e@ == why@
        } else {
            occurs_in(args.net@, e@)
        }),
{
    lemma_occurs("unknown --net backend: "@, args.net@, " (expected: gvproxy, tsi, none)"@);
}

/// The root of a workspace is two steps above its package, and the wrapper stands
/// in `scripts/bin` below that root; an installed root file system stands below
/// the home directory.
pub proof fn law_workspace_files(manifest_dir: Seq<u8>, home: Seq<char>)
    requires
        grandparent(manifest_dir) is Some,
    ensures
        ({
            let steps = components(manifest_dir);
            let root = grandparent(manifest_dir)->0;
            &&& steps.len() >= 2
            &&& components(root) == steps.take(steps.len() - 2)
            &&& root.is_prefix_of(manifest_dir)
            &&& encode_utf8("scripts/bin/kubectl"@).is_suffix_of(wrapper_file(manifest_dir))
            &&& root.is_prefix_of(wrapper_file(manifest_dir))
            &&& encode_utf8(".local/share/openshell/gateway/rootfs"@).is_suffix_of(
                installed_rootfs(home),
            )
            &&& encode_utf8(home).is_prefix_of(installed_rootfs(home))
        }),
{
    let steps = components(manifest_dir);
    law_parent_drops_last_step(manifest_dir);
    let parent = parent_path(manifest_dir)->0;
    law_parent_drops_last_step(parent);
    let root = grandparent(manifest_dir)->0;
    assert(components(root) =~= steps.take(steps.len() - 2));
    assert(root =~= manifest_dir.subrange(0, root.len() as int)) by {
        assert(root =~= parent.subrange(0, root.len() as int));
        assert(parent =~= manifest_dir.subrange(0, parent.len() as int));
        assert(parent.subrange(0, root.len() as int) =~= manifest_dir.subrange(
            0,
            root.len() as int,
        ));
    }
    reveal_strlit("scripts/bin/kubectl");
    reveal_strlit(".local/share/openshell/gateway/rootfs");
    lemma_rooted_text("scripts/bin/kubectl"@);
    lemma_rooted_text(".local/share/openshell/gateway/rootfs"@);
    law_join_path(root, encode_utf8("scripts/bin/kubectl"@));
    law_join_path(encode_utf8(home), encode_utf8(".local/share/openshell/gateway/rootfs"@));
    let a = wrapper_file(manifest_dir);
    let b = installed_rootfs(home);
    if root.len() == 0 {
        assert(a.subrange(0, a.len() as int) =~= a);
        assert(root =~= a.subrange(0, 0));
    }
    if encode_utf8(home).len() == 0 {
        assert(b.subrange(0, b.len() as int) =~= b);
        assert(encode_utf8(home) =~= b.subrange(0, 0));
    }
}

} // verus!

//! Launching a microVM.
//!
//! A launch is a list of steps, most of them libkrun calls, in order. What is
//! not fit for a C string ends the list with the failure that it is. Carrying
//! the steps out is the caller's part; [`step_outcome`] says what the result of
//! a step means.

use super::config::{default_env, minimal_env, NetBackend, VmConfig};
use super::cstring::{
    c_bytes, c_path, c_string_array, c_texts, law_c_bytes, law_c_path, law_c_texts,
    path_to_cstring, reports, text_to_cstring, CFault,
};
use super::error::{check, fork_error, VmError};
use crate::path::{
    byte_lists, components, encoded, join_text, law_join_adds_a_step, law_parent_drops_last_step,
    lemma_ascii_bytes, lemma_utf8_injective, lossy_text, parent_path, Part, UnixPath,
};
use crate::text::{concat, copy_texts, owned, texts};
use vstd::prelude::*;
use vstd::utf8::*;

verus! {

/// Hardware address of the guest's network interface. It matches the static
/// DHCP lease of gvproxy for the guest's address; another would get packets
/// misrouted or dropped.
pub open spec fn guest_mac() -> Seq<u8> {
    seq![0x5au8, 0x94u8, 0xefu8, 0xe4u8, 0x0cu8, 0xeeu8]
}

pub const NET_FEATURE_CSUM: u32 = 1;

pub const NET_FEATURE_GUEST_CSUM: u32 = 2;

pub const NET_FEATURE_GUEST_TSO4: u32 = 128;

pub const NET_FEATURE_GUEST_UFO: u32 = 1024;

pub const NET_FEATURE_HOST_TSO4: u32 = 2048;

pub const NET_FEATURE_HOST_UFO: u32 = 16384;

/// The features of a network interface that libkrun calls compatible.
pub const COMPAT_NET_FEATURES: u32 = NET_FEATURE_CSUM | NET_FEATURE_GUEST_CSUM
    | NET_FEATURE_GUEST_TSO4 | NET_FEATURE_GUEST_UFO | NET_FEATURE_HOST_TSO4
    | NET_FEATURE_HOST_UFO;

/// The socket of a network interface speaks the vfkit protocol.
pub const NET_FLAG_VFKIT: u32 = 1;

/// One step of a launch.
#[derive(Debug, PartialEq, Eq)]
pub enum LaunchStep {
    /// The root file system must be a directory.
    RequireRootfs { path: UnixPath },
    /// The firmware library must be on the loader's search path.
    EnsureLibrary,
    /// `krun_set_log_level`
    SetLogLevel { level: u32 },
    /// `krun_create_ctx`
    CreateContext,
    /// `krun_set_vm_config`
    SetVmConfig { vcpus: u8, mem_mib: u32 },
    /// `krun_set_root`
    SetRoot { root: Vec<u8> },
    /// `krun_set_workdir`
    SetWorkdir { dir: Vec<u8> },
    /// The gvproxy binary must be there.
    RequireBinary { path: UnixPath },
    /// A stale socket goes, if it is there.
    RemoveFile { path: UnixPath },
    /// Runs gvproxy with its errors in a new log file.
    StartGvproxy { binary: UnixPath, args: Vec<String>, log: UnixPath },
    /// Waits for gvproxy's socket.
    AwaitSocket { path: UnixPath },
    /// `krun_disable_implicit_vsock`
    DisableImplicitVsock,
    /// `krun_add_vsock`
    AddVsock { features: u32 },
    /// `krun_add_net_unixgram`
    AddNet { socket: Vec<u8>, fd: i32, mac: Vec<u8>, features: u32, flags: u32 },
    /// `krun_set_port_map`
    SetPortMap { entries: Vec<Vec<u8>> },
    /// `krun_set_console_output`
    SetConsole { file: Vec<u8> },
    /// `krun_set_exec`
    SetExec { program: Vec<u8>, argv: Vec<Vec<u8>>, env: Vec<Vec<u8>> },
    /// Forks; the child enters the VM with `krun_start_enter`.
    Boot,
    /// The launch has failed.
    Fail { error: VmError },
}

/// The values in a step. A failure is known by its reason.
pub enum Act {
    RequireRootfs(Seq<u8>),
    EnsureLibrary,
    SetLogLevel(u32),
    CreateContext,
    SetVmConfig(u8, u32),
    SetRoot(Seq<u8>),
    SetWorkdir(Seq<u8>),
    RequireBinary(Seq<u8>),
    RemoveFile(Seq<u8>),
    StartGvproxy(Seq<u8>, Seq<Seq<char>>, Seq<u8>),
    AwaitSocket(Seq<u8>),
    DisableImplicitVsock,
    AddVsock(u32),
    AddNet(Seq<u8>, int, Seq<u8>, u32, u32),
    SetPortMap(Seq<Seq<u8>>),
    SetConsole(Seq<u8>),
    SetExec(Seq<u8>, Seq<Seq<u8>>, Seq<Seq<u8>>),
    Boot,
    Fail(CFault),
}

/// Whether a step is the given one.
pub open spec fn step_is(step: LaunchStep, act: Act) -> bool {
    match (step, act) {
        (LaunchStep::RequireRootfs { path }, Act::RequireRootfs(p)) => path@ == p,
        (LaunchStep::EnsureLibrary, Act::EnsureLibrary) => true,
        (LaunchStep::SetLogLevel { level }, Act::SetLogLevel(l)) => level == l,
        (LaunchStep::CreateContext, Act::CreateContext) => true,
        (LaunchStep::SetVmConfig { vcpus, mem_mib }, Act::SetVmConfig(v, m)) => vcpus == v
            && mem_mib == m,
        (LaunchStep::SetRoot { root }, Act::SetRoot(p)) => root@ == p,
        (LaunchStep::SetWorkdir { dir }, Act::SetWorkdir(d)) => dir@ == d,
        (LaunchStep::RequireBinary { path }, Act::RequireBinary(p)) => path@ == p,
        (LaunchStep::RemoveFile { path }, Act::RemoveFile(p)) => path@ == p,
        (LaunchStep::StartGvproxy { binary, args, log }, Act::StartGvproxy(b, a, l)) => binary@
            == b && texts(args@) == a && log@ == l,
        (LaunchStep::AwaitSocket { path }, Act::AwaitSocket(p)) => path@ == p,
        (LaunchStep::DisableImplicitVsock, Act::DisableImplicitVsock) => true,
        (LaunchStep::AddVsock { features }, Act::AddVsock(f)) => features == f,
        (
            LaunchStep::AddNet { socket, fd, mac, features, flags },
            Act::AddNet(s, d, m, f, g),
        ) => socket@ == s && fd == d && mac@ == m && features == f && flags == g,
        (LaunchStep::SetPortMap { entries }, Act::SetPortMap(e)) => byte_lists(entries@) == e,
        (LaunchStep::SetConsole { file }, Act::SetConsole(p)) => file@ == p,
        (LaunchStep::SetExec { program, argv, env }, Act::SetExec(x, a, e)) => program@ == x
            && byte_lists(argv@) == a && byte_lists(env@) == e,
        (LaunchStep::Boot, Act::Boot) => true,
        (LaunchStep::Fail { error }, Act::Fail(fault)) => reports(error, fault),
        _ => false,
    }
}

/// Whether a list of steps is the given one.
pub open spec fn steps_are(steps: Seq<LaunchStep>, acts: Seq<Act>) -> bool {
    steps.len() == acts.len() && forall|i: int|
        0 <= i < steps.len() ==> step_is(#[trigger] steps[i], acts[i])
}

// ---------------------------------------------------------------------
// Paths of a launch
// ---------------------------------------------------------------------
/// The directory beside the root file system.
pub open spec fn run_dir(rootfs: Seq<u8>) -> Seq<u8> {
    match parent_path(rootfs) {
        Some(parent) => parent,
        None => rootfs,
    }
}

fn run_dir_of(rootfs: &UnixPath) -> (r: UnixPath)
    ensures
        r@ == run_dir(rootfs@),
{
    match rootfs.parent() {
        Some(parent) => parent,
        None => rootfs.clone(),
    }
}

/// gvproxy's socket for network frames.
pub open spec fn vfkit_sock(rootfs: Seq<u8>) -> Seq<u8> {
    join_text(run_dir(rootfs), "gvproxy-vfkit.sock"@)
}

/// gvproxy's socket for its HTTP API.
pub open spec fn api_sock(rootfs: Seq<u8>) -> Seq<u8> {
    join_text(run_dir(rootfs), "gvproxy-api.sock"@)
}

/// gvproxy's socket for its HTTP API.
pub fn gvproxy_api_sock(rootfs: &UnixPath) -> (r: UnixPath)
    ensures
        r@ == api_sock(rootfs@),
{
    run_dir_of(rootfs).join("gvproxy-api.sock")
}

/// The file for the console output.
pub open spec fn console_file(config: VmConfig) -> Seq<u8> {
    match config.console_output {
        Some(path) => path@,
        None => join_text(run_dir(config.rootfs@), "console.log"@),
    }
}

/// The file for the console output.
pub fn console_log(config: &VmConfig) -> (r: UnixPath)
    ensures
        r@ == console_file(*config),
{
    match &config.console_output {
        Some(path) => path.clone(),
        None => run_dir_of(&config.rootfs).join("console.log"),
    }
}

// ---------------------------------------------------------------------
// The parts of a launch
// ---------------------------------------------------------------------
/// Checks and basic VM shape.
pub open spec fn opening_acts(config: VmConfig) -> Seq<Act> {
    seq![
        Act::RequireRootfs(config.rootfs@),
        Act::EnsureLibrary,
        Act::SetLogLevel(config.log_level),
        Act::CreateContext,
        Act::SetVmConfig(config.vcpus, config.mem_mib),
    ]
}

/// The root file system.
pub open spec fn root_acts(config: VmConfig) -> Seq<Act> {
    match c_path(config.rootfs@) {
        Ok(path) => seq![Act::SetRoot(path)],
        Err(fault) => seq![Act::Fail(fault)],
    }
}

/// The working directory.
pub open spec fn workdir_acts(config: VmConfig) -> Seq<Act> {
    match c_bytes(encode_utf8(config.workdir@)) {
        Ok(dir) => seq![Act::SetWorkdir(dir)],
        Err(fault) => seq![Act::Fail(fault)],
    }
}

/// The arguments of gvproxy.
pub open spec fn gvproxy_args(rootfs: Seq<u8>) -> Seq<Seq<char>> {
    seq![
        "-listen-vfkit"@,
        "unixgram://"@ + lossy_text(vfkit_sock(rootfs)),
        "-listen"@,
        "unix://"@ + lossy_text(api_sock(rootfs)),
    ]
}

/// The network. gvproxy is up before the VM gets its interface.
pub open spec fn net_acts(config: VmConfig) -> Seq<Act> {
    let rootfs = config.rootfs@;
    match config.net {
        NetBackend::Tsi => Seq::empty(),
        NetBackend::Disabled => seq![Act::DisableImplicitVsock, Act::AddVsock(0)],
        NetBackend::Gvproxy { binary } => seq![
            Act::RequireBinary(binary@),
            Act::RemoveFile(vfkit_sock(rootfs)),
            Act::RemoveFile(api_sock(rootfs)),
            Act::StartGvproxy(
                binary@,
                gvproxy_args(rootfs),
                join_text(run_dir(rootfs), "gvproxy.log"@),
            ),
            Act::AwaitSocket(vfkit_sock(rootfs)),
            Act::DisableImplicitVsock,
            Act::AddVsock(0),
            match c_path(vfkit_sock(rootfs)) {
                Ok(socket) => Act::AddNet(
                    socket,
                    -1,
                    guest_mac(),
                    COMPAT_NET_FEATURES,
                    NET_FLAG_VFKIT,
                ),
                Err(fault) => Act::Fail(fault),
            },
        ],
    }
}

/// The port mappings, which libkrun takes only where TSI is the network.
pub open spec fn port_acts(config: VmConfig) -> Seq<Act> {
    if config.port_map@.len() > 0 && config.net is Tsi {
        match c_texts(texts(config.port_map@)) {
            Ok(entries) => seq![Act::SetPortMap(entries)],
            Err(fault) => seq![Act::Fail(fault)],
        }
    } else {
        Seq::empty()
    }
}

/// The console output.
pub open spec fn console_acts(config: VmConfig) -> Seq<Act> {
    match c_path(console_file(config)) {
        Ok(path) => seq![Act::SetConsole(path)],
        Err(fault) => seq![Act::Fail(fault)],
    }
}

/// The environment of the executable.
pub open spec fn exec_env(config: VmConfig) -> Seq<Seq<char>> {
    if config.env@.len() == 0 {
        minimal_env()
    } else {
        texts(config.env@)
    }
}

/// The executable. Its own name is not among the arguments: libkrun's init
/// puts it there.
pub open spec fn exec_acts(config: VmConfig) -> Seq<Act> {
    match c_bytes(encode_utf8(config.exec_path@)) {
        Err(fault) => seq![Act::Fail(fault)],
        Ok(program) => match c_texts(texts(config.args@)) {
            Err(fault) => seq![Act::Fail(fault)],
            Ok(argv) => match c_texts(exec_env(config)) {
                Err(fault) => seq![Act::Fail(fault)],
                Ok(env) => seq![Act::SetExec(program, argv, env)],
            },
        },
    }
}

/// Whether the last act is a failure.
pub open spec fn fails(acts: Seq<Act>) -> bool {
    acts.len() > 0 && acts.last() is Fail
}

/// The parts of a launch one after the other, up to the first that fails.
pub open spec fn flow(parts: Seq<Seq<Act>>) -> Seq<Act>
    decreases parts.len(),
{
    if parts.len() == 0 {
        Seq::empty()
    } else if fails(parts[0]) {
        parts[0]
    } else {
        parts[0] + flow(parts.skip(1))
    }
}

/// The parts of a launch.
pub open spec fn launch_parts(config: VmConfig) -> Seq<Seq<Act>> {
    seq![
        opening_acts(config),
        root_acts(config),
        workdir_acts(config),
        net_acts(config),
        port_acts(config),
        console_acts(config),
        exec_acts(config),
        seq![Act::Boot],
    ]
}

/// A launch.
pub open spec fn launch_acts(config: VmConfig) -> Seq<Act> {
    flow(launch_parts(config))
}

fn fail_with(error: VmError) -> (r: Vec<LaunchStep>)
    ensures
        r@ == seq![LaunchStep::Fail { error }],
{
    let mut r: Vec<LaunchStep> = Vec::new();
    r.push(LaunchStep::Fail { error });
    r
}

fn just(step: LaunchStep) -> (r: Vec<LaunchStep>)
    ensures
        r@ == seq![step],
{
    let mut r: Vec<LaunchStep> = Vec::new();
    r.push(step);
    r
}

fn opening_steps(config: &VmConfig) -> (r: Vec<LaunchStep>)
    ensures
        steps_are(r@, opening_acts(*config)),
{
    let mut r: Vec<LaunchStep> = Vec::new();
    r.push(LaunchStep::RequireRootfs { path: config.rootfs.clone() });
    r.push(LaunchStep::EnsureLibrary);
    r.push(LaunchStep::SetLogLevel { level: config.log_level });
    r.push(LaunchStep::CreateContext);
    r.push(LaunchStep::SetVmConfig { vcpus: config.vcpus, mem_mib: config.mem_mib });
    r
}

fn root_steps(config: &VmConfig) -> (r: Vec<LaunchStep>)
    ensures
        steps_are(r@, root_acts(*config)),
{
    match path_to_cstring(&config.rootfs) {
        Ok(root) => just(LaunchStep::SetRoot { root }),
        Err(error) => fail_with(error),
    }
}

fn workdir_steps(config: &VmConfig) -> (r: Vec<LaunchStep>)
    ensures
        steps_are(r@, workdir_acts(*config)),
{
    match text_to_cstring(config.workdir.as_str()) {
        Ok(dir) => just(LaunchStep::SetWorkdir { dir }),
        Err(error) => fail_with(error),
    }
}

fn mac_bytes() -> (r: Vec<u8>)
    ensures
        r@ == guest_mac(),
{
    let mut mac: Vec<u8> = Vec::new();
    mac.push(0x5a);
    mac.push(0x94);
    mac.push(0xef);
    mac.push(0xe4);
    mac.push(0x0c);
    mac.push(0xee);
    assert(mac@ =~= guest_mac());
    mac
}

fn net_steps(config: &VmConfig) -> (r: Vec<LaunchStep>)
    ensures
        steps_are(r@, net_acts(*config)),
{
    let mut r: Vec<LaunchStep> = Vec::new();
    match &config.net {
        NetBackend::Tsi => {},
        NetBackend::Disabled => {
            r.push(LaunchStep::DisableImplicitVsock);
            r.push(LaunchStep::AddVsock { features: 0 });
        },
        NetBackend::Gvproxy { binary } => {
            let dir: UnixPath = run_dir_of(&config.rootfs);
            let vfkit: UnixPath = dir.join("gvproxy-vfkit.sock");
            let api: UnixPath = gvproxy_api_sock(&config.rootfs);
            let mut args: Vec<String> = Vec::new();
            args.push(owned("-listen-vfkit"));
            args.push(concat("unixgram://", vfkit.display().as_str()));
            args.push(owned("-listen"));
            args.push(concat("unix://", api.display().as_str()));
            assert(texts(args@) =~= gvproxy_args(config.rootfs@));
            r.push(LaunchStep::RequireBinary { path: binary.clone() });
            r.push(LaunchStep::RemoveFile { path: vfkit.clone() });
            r.push(LaunchStep::RemoveFile { path: api });
            r.push(
                LaunchStep::StartGvproxy {
                    binary: binary.clone(),
                    args,
                    log: dir.join("gvproxy.log"),
                },
            );
            r.push(LaunchStep::AwaitSocket { path: vfkit.clone() });
            r.push(LaunchStep::DisableImplicitVsock);
            r.push(LaunchStep::AddVsock { features: 0 });
            match path_to_cstring(&vfkit) {
                Ok(socket) => {
                    r.push(
                        LaunchStep::AddNet {
                            socket,
                            fd: -1,
                            mac: mac_bytes(),
                            features: COMPAT_NET_FEATURES,
                            flags: NET_FLAG_VFKIT,
                        },
                    );
                },
                Err(error) => {
                    r.push(LaunchStep::Fail { error });
                },
            }
        },
    }
    r
}

fn port_steps(config: &VmConfig) -> (r: Vec<LaunchStep>)
    ensures
        steps_are(r@, port_acts(*config)),
{
    let tsi: bool = match &config.net {
        NetBackend::Tsi => true,
        _ => false,
    };
    if config.port_map.len() > 0 && tsi {
        match c_string_array(&config.port_map) {
            Ok(entries) => just(LaunchStep::SetPortMap { entries }),
            Err(error) => fail_with(error),
        }
    } else {
        Vec::new()
    }
}

fn console_steps(config: &VmConfig) -> (r: Vec<LaunchStep>)
    ensures
        steps_are(r@, console_acts(*config)),
{
    match path_to_cstring(&console_log(config)) {
        Ok(file) => just(LaunchStep::SetConsole { file }),
        Err(error) => fail_with(error),
    }
}

fn exec_steps(config: &VmConfig) -> (r: Vec<LaunchStep>)
    ensures
        steps_are(r@, exec_acts(*config)),
{
    let program: Vec<u8> = match text_to_cstring(config.exec_path.as_str()) {
        Ok(program) => program,
        Err(error) => {
            return fail_with(error);
        },
    };
    let argv: Vec<Vec<u8>> = match c_string_array(&config.args) {
        Ok(argv) => argv,
        Err(error) => {
            return fail_with(error);
        },
    };
    let env_texts: Vec<String> = if config.env.len() == 0 {
        default_env()
    } else {
        copy_texts(&config.env)
    };
    match c_string_array(&env_texts) {
        Ok(env) => just(LaunchStep::SetExec { program, argv, env }),
        Err(error) => fail_with(error),
    }
}

/// Appends `part` to `steps`, and says whether `part` failed.
fn extend(
    steps: &mut Vec<LaunchStep>,
    part: Vec<LaunchStep>,
    Ghost(before): Ghost<Seq<Act>>,
    Ghost(acts): Ghost<Seq<Act>>,
) -> (failed: bool)
    requires
        steps_are(old(steps)@, before),
        steps_are(part@, acts),
    ensures
        steps_are(final(steps)@, before + acts),
        failed == fails(acts),
{
    let failed: bool = if part.len() > 0 {
        match &part[part.len() - 1] {
            LaunchStep::Fail { error: _ } => true,
            _ => false,
        }
    } else {
        false
    };
    proof {
        if part@.len() > 0 {
            assert(step_is(part@[part@.len() - 1], acts[part@.len() - 1]));
        }
    }
    let ghost head = steps@;
    let mut part = part;
    let ghost tail = part@;
    steps.append(&mut part);
    assert forall|i: int| 0 <= i < steps@.len() implies step_is(
        #[trigger] steps@[i],
        (before + acts)[i],
    ) by {
        if i < head.len() {
            assert(step_is(head[i], before[i]));
        } else {
            assert(step_is(tail[i - head.len()], acts[i - head.len()]));
        }
    }
    failed
}

proof fn lemma_flow_step(parts: Seq<Seq<Act>>, i: int, done: Seq<Act>)
    requires
        0 <= i < parts.len(),
        flow(parts) == done + flow(parts.skip(i)),
    ensures
        fails(parts[i]) ==> flow(parts) == done + parts[i],
        !fails(parts[i]) ==> flow(parts) == done + parts[i] + flow(parts.skip(i + 1)),
{
    assert(parts.skip(i)[0] == parts[i]);
    assert(parts.skip(i).skip(1) =~= parts.skip(i + 1));
    if !fails(parts[i]) {
        assert(done + (parts[i] + flow(parts.skip(i + 1))) =~= done + parts[i] + flow(
            parts.skip(i + 1),
        ));
    }
}

/// The steps that configure and launch a microVM, in order. The list ends with
/// the boot, or with the failure that keeps it from happening.
pub fn launch(config: &VmConfig) -> (r: Vec<LaunchStep>)
    ensures
        steps_are(r@, launch_acts(*config)),
{
    let ghost parts = launch_parts(*config);
    let ghost mut done: Seq<Act> = Seq::empty();
    let mut steps: Vec<LaunchStep> = Vec::new();
    proof {
        assert(parts.skip(0) =~= parts);
        assert(done + flow(parts.skip(0)) =~= flow(parts));
        lemma_flow_step(parts, 0, done);
    }
    if extend(&mut steps, opening_steps(config), Ghost(done), Ghost(parts[0])) {
        return steps;
    }
    proof {
        done = done + parts[0];
        lemma_flow_step(parts, 1, done);
    }
    if extend(&mut steps, root_steps(config), Ghost(done), Ghost(parts[1])) {
        return steps;
    }
    proof {
        done = done + parts[1];
        lemma_flow_step(parts, 2, done);
    }
    if extend(&mut steps, workdir_steps(config), Ghost(done), Ghost(parts[2])) {
        return steps;
    }
    proof {
        done = done + parts[2];
        lemma_flow_step(parts, 3, done);
    }
    if extend(&mut steps, net_steps(config), Ghost(done), Ghost(parts[3])) {
        return steps;
    }
    proof {
        done = done + parts[3];
        lemma_flow_step(parts, 4, done);
    }
    if extend(&mut steps, port_steps(config), Ghost(done), Ghost(parts[4])) {
        return steps;
    }
    proof {
        done = done + parts[4];
        lemma_flow_step(parts, 5, done);
    }
    if extend(&mut steps, console_steps(config), Ghost(done), Ghost(parts[5])) {
        return steps;
    }
    proof {
        done = done + parts[5];
        lemma_flow_step(parts, 6, done);
    }
    if extend(&mut steps, exec_steps(config), Ghost(done), Ghost(parts[6])) {
        return steps;
    }
    proof {
        done = done + parts[6];
        lemma_flow_step(parts, 7, done);
        assert(parts.skip(8).len() == 0);
        assert(done + parts[7] + flow(parts.skip(8)) =~= done + parts[7]);
    }
    extend(&mut steps, just(LaunchStep::Boot), Ghost(done), Ghost(parts[7]));
    steps
}

// ---------------------------------------------------------------------
// Results of steps
// ---------------------------------------------------------------------
/// What came of a step.
#[derive(Debug)]
pub enum StepReport {
    /// It was done.
    Done,
    /// A libkrun call returned this code.
    Code { code: i32 },
    /// What is required is not there.
    Missing,
    /// The path of the running executable is not known.
    ExeUnknown { error: String },
    /// Running the executable again failed.
    RerunFailed { error: String },
    /// The log file could not be created.
    LogFailed { error: String },
    /// The process could not be started.
    SpawnFailed { error: String },
    /// The process could not be forked.
    ForkFailed { error: String },
}

/// The libkrun function that a step calls.
pub open spec fn krun_func(step: LaunchStep) -> Option<Seq<char>> {
    match step {
        LaunchStep::SetLogLevel { .. } => Some("krun_set_log_level"@),
        LaunchStep::CreateContext => Some("krun_create_ctx"@),
        LaunchStep::SetVmConfig { .. } => Some("krun_set_vm_config"@),
        LaunchStep::SetRoot { .. } => Some("krun_set_root"@),
        LaunchStep::SetWorkdir { .. } => Some("krun_set_workdir"@),
        LaunchStep::DisableImplicitVsock => Some("krun_disable_implicit_vsock"@),
        LaunchStep::AddVsock { .. } => Some("krun_add_vsock"@),
        LaunchStep::AddNet { .. } => Some("krun_add_net_unixgram"@),
        LaunchStep::SetPortMap { .. } => Some("krun_set_port_map"@),
        LaunchStep::SetConsole { .. } => Some("krun_set_console_output"@),
        LaunchStep::SetExec { .. } => Some("krun_set_exec"@),
        _ => None,
    }
}

fn krun_func_name(step: &LaunchStep) -> (r: Option<&'static str>)
    ensures
        match r {
            Some(name) => krun_func(*step) == Some(name@),
            None => krun_func(*step) is None,
        },
{
    match step {
        LaunchStep::SetLogLevel { level: _ } => Some("krun_set_log_level"),
        LaunchStep::CreateContext => Some("krun_create_ctx"),
        LaunchStep::SetVmConfig { vcpus: _, mem_mib: _ } => Some("krun_set_vm_config"),
        LaunchStep::SetRoot { root: _ } => Some("krun_set_root"),
        LaunchStep::SetWorkdir { dir: _ } => Some("krun_set_workdir"),
        LaunchStep::DisableImplicitVsock => Some("krun_disable_implicit_vsock"),
        LaunchStep::AddVsock { features: _ } => Some("krun_add_vsock"),
        LaunchStep::AddNet { socket: _, fd: _, mac: _, features: _, flags: _ } => Some(
            "krun_add_net_unixgram",
        ),
        LaunchStep::SetPortMap { entries: _ } => Some("krun_set_port_map"),
        LaunchStep::SetConsole { file: _ } => Some("krun_set_console_output"),
        LaunchStep::SetExec { program: _, argv: _, env: _ } => Some("krun_set_exec"),
        _ => None,
    }
}

/// Whether `r` is what a report on a step means: a negative code is the failure
/// of its libkrun call, every other failure is named, and a step without a
/// failure is done.
pub open spec fn means(step: LaunchStep, report: StepReport, r: Result<(), VmError>) -> bool {
    match (step, report) {
        (LaunchStep::Fail { error }, _) => r == Err::<(), VmError>(error),
        (LaunchStep::RequireRootfs { path }, StepReport::Missing) => r matches Err(
            VmError::RootfsNotFound { path: p },
        ) && p@ == lossy_text(path@),
        (LaunchStep::RequireBinary { path }, StepReport::Missing) => r matches Err(
            VmError::BinaryNotFound { path: p, hint },
        ) && p@ == lossy_text(path@) && hint@ == "Install Podman Desktop or place gvproxy in PATH"@,
        (LaunchStep::EnsureLibrary, StepReport::ExeUnknown { error }) => r matches Err(e)
            && fork_error(e, error@),
        (LaunchStep::EnsureLibrary, StepReport::RerunFailed { error }) => r matches Err(e)
            && fork_error(e, "re-exec failed: "@ + error@),
        (LaunchStep::StartGvproxy { .. }, StepReport::LogFailed { error }) => r matches Err(e)
            && fork_error(e, "failed to create gvproxy log: "@ + error@),
        (LaunchStep::StartGvproxy { .. }, StepReport::SpawnFailed { error }) => r matches Err(e)
            && fork_error(e, "failed to start gvproxy: "@ + error@),
        (LaunchStep::AwaitSocket { .. }, StepReport::Missing) => r matches Err(e) && fork_error(
            e,
            "gvproxy socket did not appear within 5s"@,
        ),
        (LaunchStep::Boot, StepReport::ForkFailed { error }) => r matches Err(e) && fork_error(
            e,
            error@,
        ),
        (step, StepReport::Code { code }) => match krun_func(step) {
            Some(name) => if code < 0 {
                r matches Err(VmError::Krun { func, code: c }) && func@ == name && c == code
            } else {
                r is Ok
            },
            None => r is Ok,
        },
        _ => r is Ok,
    }
}

/// What a report on a step means for the launch.
pub fn step_outcome(step: LaunchStep, report: StepReport) -> (r: Result<(), VmError>)
    ensures
        means(step, report, r),
{
    match (step, report) {
        (LaunchStep::Fail { error }, _) => Err(error),
        (LaunchStep::RequireRootfs { path }, StepReport::Missing) => Err(
            VmError::RootfsNotFound { path: path.display() },
        ),
        (LaunchStep::RequireBinary { path }, StepReport::Missing) => Err(
            VmError::BinaryNotFound {
                path: path.display(),
                hint: owned("Install Podman Desktop or place gvproxy in PATH"),
            },
        ),
        (LaunchStep::EnsureLibrary, StepReport::ExeUnknown { error }) => Err(VmError::Fork(error)),
        (LaunchStep::EnsureLibrary, StepReport::RerunFailed { error }) => Err(
            VmError::Fork(concat("re-exec failed: ", error.as_str())),
        ),
        (
            LaunchStep::StartGvproxy { binary: _, args: _, log: _ },
            StepReport::LogFailed { error },
        ) => Err(VmError::Fork(concat("failed to create gvproxy log: ", error.as_str()))),
        (
            LaunchStep::StartGvproxy { binary: _, args: _, log: _ },
            StepReport::SpawnFailed { error },
        ) => Err(VmError::Fork(concat("failed to start gvproxy: ", error.as_str()))),
        (LaunchStep::AwaitSocket { path: _ }, StepReport::Missing) => Err(
            VmError::Fork(owned("gvproxy socket did not appear within 5s")),
        ),
        (LaunchStep::Boot, StepReport::ForkFailed { error }) => Err(VmError::Fork(error)),
        (step, StepReport::Code { code }) => match krun_func_name(&step) {
            Some(func) => check(code, func),
            None => Ok(()),
        },
        _ => Ok(()),
    }
}

// ---------------------------------------------------------------------
// Laws
// ---------------------------------------------------------------------
/// Whether a part holds no boot, and no failure but at its end.
spec fn plain_part(part: Seq<Act>) -> bool {
    forall|i: int|
        0 <= i < part.len() ==> !(#[trigger] part[i] is Boot) && (i < part.len() - 1 ==> !(
        part[i] is Fail))
}

proof fn lemma_flow_ends(parts: Seq<Seq<Act>>)
    requires
        parts.len() > 0,
        parts.last() == seq![Act::Boot],
        forall|j: int| 0 <= j < parts.len() - 1 ==> plain_part(#[trigger] parts[j]),
    ensures
        flow(parts).len() > 0,
        flow(parts).last() is Boot || flow(parts).last() is Fail,
        forall|i: int|
            0 <= i < flow(parts).len() - 1 ==> !(#[trigger] flow(parts)[i] is Boot) && !(flow(
                parts,
            )[i] is Fail),
    decreases parts.len(),
{
    let rest = parts.skip(1);
    if parts.len() == 1 {
        assert(rest.len() == 0);
        assert(flow(parts) =~= seq![Act::Boot]);
    } else {
        assert(plain_part(parts[0]));
        assert(rest.last() == parts.last());
        assert forall|j: int| 0 <= j < rest.len() - 1 implies plain_part(#[trigger] rest[j]) by {
            assert(rest[j] == parts[j + 1]);
        }
        lemma_flow_ends(rest);
        let head = parts[0];
        if !fails(head) {
            let whole = head + flow(rest);
            assert(whole.last() == flow(rest).last());
            assert forall|i: int| 0 <= i < whole.len() - 1 implies !(#[trigger] whole[i] is Boot)
                && !(whole[i] is Fail) by {
                if i < head.len() {
                    assert(whole[i] == head[i]);
                } else {
                    assert(whole[i] == flow(rest)[i - head.len()]);
                }
            }
        }
    }
}

/// A launch ends with the boot or with one failure, and nothing follows either:
/// no step is taken after a failure, and the VM is entered once, when all is
/// configured.
pub proof fn law_launch_ends(config: VmConfig)
    ensures
        launch_acts(config).len() > 0,
        launch_acts(config).last() is Boot || launch_acts(config).last() is Fail,
        forall|i: int|
            0 <= i < launch_acts(config).len() - 1 ==> !(#[trigger] launch_acts(config)[i] is Boot)
                && !(launch_acts(config)[i] is Fail),
{
    let parts = launch_parts(config);
    assert(plain_part(parts[0]));
    assert(plain_part(parts[1]));
    assert(plain_part(parts[2]));
    assert(plain_part(parts[3]));
    assert(plain_part(parts[4]));
    assert(plain_part(parts[5]));
    assert(plain_part(parts[6]));
    lemma_flow_ends(parts);
}

proof fn lemma_flow_acts(parts: Seq<Seq<Act>>, i: int)
    requires
        0 <= i < flow(parts).len(),
    ensures
        exists|j: int, k: int|
            0 <= j < parts.len() && 0 <= k < parts[j].len() && #[trigger] parts[j][k] == flow(
                parts,
            )[i],
    decreases parts.len(),
{
    let head = parts[0];
    let rest = parts.skip(1);
    if i < head.len() {
        assert(parts[0][i] == flow(parts)[i]);
    } else {
        lemma_flow_acts(rest, i - head.len());
        let (j, k) = choose|j: int, k: int|
            0 <= j < rest.len() && 0 <= k < rest[j].len() && #[trigger] rest[j][k] == flow(rest)[i
                - head.len()];
        assert(parts[j + 1][k] == rest[j][k]);
    }
}

/// libkrun's own networking and gvproxy exclude each other: port mappings are
/// handed to libkrun only under TSI, and only under TSI the implicit vsock stays
/// on and no process is started.
pub proof fn law_networks_exclude(config: VmConfig, i: int)
    requires
        0 <= i < launch_acts(config).len(),
    ensures
        launch_acts(config)[i] is SetPortMap ==> config.net is Tsi && config.port_map@.len() > 0,
        launch_acts(config)[i] is DisableImplicitVsock ==> !(config.net is Tsi),
        launch_acts(config)[i] is StartGvproxy ==> config.net is Gvproxy,
        launch_acts(config)[i] is AddNet ==> config.net is Gvproxy,
{
    let parts = launch_parts(config);
    lemma_flow_acts(parts, i);
    let (j, k) = choose|j: int, k: int|
        0 <= j < parts.len() && 0 <= k < parts[j].len() && #[trigger] parts[j][k] == flow(parts)[i];
    assert(parts[j][k] == launch_acts(config)[i]);
    assert(j == 0 || j == 1 || j == 2 || j == 3 || j == 4 || j == 5 || j == 6 || j == 7);
}

/// Whether a path is the file of the given name in the directory that holds the
/// root file system.
pub open spec fn beside(rootfs: Seq<u8>, path: Seq<u8>, name: Seq<char>) -> bool {
    let steps = components(rootfs);
    components(path) == (if steps.len() == 0 || steps == seq![Part::<Seq<u8>>::Root] {
        steps
    } else {
        steps.drop_last()
    }).push(Part::Name(encode_utf8(name)))
}

/// Whether a list of C strings holds the texts of a list, each at its own place.
pub open spec fn same_texts(list: Seq<Seq<u8>>, texts: Seq<String>) -> bool {
    list.len() == texts.len() && forall|i: int|
        0 <= i < list.len() ==> #[trigger] list[i] == encode_utf8(texts[i]@)
}

/// Whether a value is why a launch of the configuration fails.
pub open spec fn at_fault(config: VmConfig, fault: CFault) -> bool {
    match fault {
        CFault::NotUtf8(text) => {
            ||| !valid_utf8(config.rootfs@) && text == lossy_text(config.rootfs@)
            ||| exists|p: Seq<u8>|
                beside(config.rootfs@, p, "gvproxy-vfkit.sock"@) && config.net is Gvproxy
                    && !valid_utf8(p) && text == #[trigger] lossy_text(p)
            ||| exists|p: Seq<u8>|
                (match config.console_output {
                    Some(c) => p == c@,
                    None => beside(config.rootfs@, p, "console.log"@),
                }) && !valid_utf8(p) && text == #[trigger] lossy_text(p)
        },
        CFault::Nul(at) => exists|bytes: Seq<u8>| #[trigger]
            nul_at(bytes, at) && (bytes == config.rootfs@ || bytes == encode_utf8(config.workdir@)
                || bytes == encode_utf8(config.exec_path@) || (config.net is Gvproxy && beside(
                config.rootfs@,
                bytes,
                "gvproxy-vfkit.sock"@,
            )) || (match config.console_output {
                Some(c) => bytes == c@,
                None => beside(config.rootfs@, bytes, "console.log"@),
            }) || (config.net is Tsi && encoded(texts(config.port_map@)).contains(bytes))
                || encoded(texts(config.args@)).contains(bytes) || encoded(
                texts(config.env@),
            ).contains(bytes)),
    }
}

/// Whether the first NUL of some bytes is at a position.
pub open spec fn nul_at(bytes: Seq<u8>, at: int) -> bool {
    0 <= at < bytes.len() && bytes[at] == 0 && forall|i: int| 0 <= i < at ==> bytes[i] != 0
}

/// Whether what an act hands over is what the configuration says.
pub open spec fn carries(config: VmConfig, act: Act) -> bool {
    match act {
        Act::RequireRootfs(path) => path == config.rootfs@,
        Act::EnsureLibrary => true,
        Act::SetLogLevel(level) => level == config.log_level,
        Act::CreateContext => true,
        Act::SetVmConfig(vcpus, mem_mib) => vcpus == config.vcpus && mem_mib == config.mem_mib,
        Act::SetRoot(root) => root == config.rootfs@,
        Act::SetWorkdir(dir) => dir == encode_utf8(config.workdir@),
        Act::RequireBinary(path) => config.net matches NetBackend::Gvproxy { binary } && path
            == binary@,
        Act::RemoveFile(path) => config.net is Gvproxy && (beside(
            config.rootfs@,
            path,
            "gvproxy-vfkit.sock"@,
        ) || beside(config.rootfs@, path, "gvproxy-api.sock"@)),
        Act::StartGvproxy(program, args, log) => {
            &&& config.net matches NetBackend::Gvproxy { binary } && program == binary@
            &&& args.len() == 4
            &&& args[0] == "-listen-vfkit"@
            &&& exists|p: Seq<u8>|
                beside(config.rootfs@, p, "gvproxy-vfkit.sock"@) && args[1] == "unixgram://"@
                    + #[trigger] lossy_text(p)
            &&& args[2] == "-listen"@
            &&& exists|p: Seq<u8>|
                beside(config.rootfs@, p, "gvproxy-api.sock"@) && args[3] == "unix://"@
                    + #[trigger] lossy_text(p)
            &&& beside(config.rootfs@, log, "gvproxy.log"@)
        },
        Act::AwaitSocket(path) => config.net is Gvproxy && beside(
            config.rootfs@,
            path,
            "gvproxy-vfkit.sock"@,
        ),
        Act::DisableImplicitVsock => !(config.net is Tsi),
        Act::AddVsock(features) => !(config.net is Tsi) && features == 0,
        Act::AddNet(socket, fd, mac, features, flags) => config.net is Gvproxy && beside(
            config.rootfs@,
            socket,
            "gvproxy-vfkit.sock"@,
        ) && fd == -1 && mac == seq![0x5au8, 0x94u8, 0xefu8, 0xe4u8, 0x0cu8, 0xeeu8]
            && features == 1 + 2 + 128 + 1024 + 2048 + 16384 && flags == 1,
        Act::SetPortMap(entries) => config.net is Tsi && entries.len() > 0 && same_texts(
            entries,
            config.port_map@,
        ),
        Act::SetConsole(file) => match config.console_output {
            Some(path) => file == path@,
            None => beside(config.rootfs@, file, "console.log"@),
        },
        Act::SetExec(program, argv, env) => {
            &&& program == encode_utf8(config.exec_path@)
            &&& same_texts(argv, config.args@)
            &&& config.env@.len() > 0 ==> same_texts(env, config.env@)
            &&& config.env@.len() == 0 ==> env == seq![
                encode_utf8("HOME=/root"@),
                encode_utf8(
                    "PATH=/usr/local/sbin:/usr/local/bin:/usr/sbin:/usr/bin:/sbin:/bin"@,
                ),
                encode_utf8("TERM=xterm"@),
            ]
        },
        Act::Boot => true,
        Act::Fail(fault) => at_fault(config, fault),
    }
}

proof fn lemma_beside(rootfs: Seq<u8>, name: Seq<char>)
    requires
        is_ascii_chars(name),
        name.len() > 2,
        !name.contains('/'),
    ensures
        beside(rootfs, join_text(run_dir(rootfs), name), name),
{
    law_parent_drops_last_step(rootfs);
    law_join_adds_a_step(run_dir(rootfs), name);
}

proof fn lemma_files_beside(config: VmConfig)
    ensures
        beside(config.rootfs@, vfkit_sock(config.rootfs@), "gvproxy-vfkit.sock"@),
        beside(config.rootfs@, api_sock(config.rootfs@), "gvproxy-api.sock"@),
        beside(
            config.rootfs@,
            join_text(run_dir(config.rootfs@), "gvproxy.log"@),
            "gvproxy.log"@,
        ),
        match config.console_output {
            Some(c) => console_file(config) == c@,
            None => beside(config.rootfs@, console_file(config), "console.log"@),
        },
{
    reveal_strlit("gvproxy-vfkit.sock");
    reveal_strlit("gvproxy-api.sock");
    reveal_strlit("gvproxy.log");
    reveal_strlit("console.log");
    lemma_beside(config.rootfs@, "gvproxy-vfkit.sock"@);
    lemma_beside(config.rootfs@, "gvproxy-api.sock"@);
    lemma_beside(config.rootfs@, "gvproxy.log"@);
    lemma_beside(config.rootfs@, "console.log"@);
}

proof fn lemma_nul(bytes: Seq<u8>)
    ensures
        match c_bytes(bytes) {
            Ok(c) => c == bytes,
            Err(CFault::Nul(at)) => nul_at(bytes, at),
            Err(CFault::NotUtf8(_)) => false,
        },
{
    law_c_bytes(bytes);
}

proof fn lemma_nul_in_list(list: Seq<String>)
    ensures
        match c_texts(texts(list)) {
            Ok(c) => same_texts(c, list),
            Err(CFault::Nul(at)) => exists|bytes: Seq<u8>| #[trigger]
                nul_at(bytes, at) && encoded(texts(list)).contains(bytes),
            Err(CFault::NotUtf8(_)) => false,
        },
{
    let all = texts(list);
    law_c_texts(all);
    match c_texts(all) {
        Err(CFault::Nul(at)) => {
            let k = choose|k: int|
                0 <= k < all.len() && c_bytes(encode_utf8(#[trigger] all[k])) == Err::<
                    Seq<u8>,
                    CFault,
                >(CFault::Nul(at)) && forall|i: int|
                    0 <= i < k ==> !encode_utf8(#[trigger] all[i]).contains(0u8);
            let bytes = encode_utf8(all[k]);
            lemma_nul(bytes);
            assert(encoded(all)[k] == bytes);
            assert(nul_at(bytes, at) && encoded(all).contains(bytes));
        },
        _ => {},
    }
}

proof fn lemma_minimal_env()
    ensures
        c_texts(minimal_env()) == Ok::<Seq<Seq<u8>>, CFault>(
            seq![
                encode_utf8("HOME=/root"@),
                encode_utf8(
                    "PATH=/usr/local/sbin:/usr/local/bin:/usr/sbin:/usr/bin:/sbin:/bin"@,
                ),
                encode_utf8("TERM=xterm"@),
            ],
        ),
{
    reveal_strlit("HOME=/root");
    reveal_strlit("PATH=/usr/local/sbin:/usr/local/bin:/usr/sbin:/usr/bin:/sbin:/bin");
    reveal_strlit("TERM=xterm");
    let env = minimal_env();
    law_c_texts(env);
    assert forall|k: int| 0 <= k < env.len() implies !encode_utf8(#[trigger] env[k]).contains(
        0u8,
    ) by {
        assert(k == 0 || k == 1 || k == 2);
        lemma_ascii_bytes(env[k]);
        let bytes = encode_utf8(env[k]);
        if bytes.contains(0u8) {
            let i = choose|i: int| 0 <= i < bytes.len() && bytes[i] == 0;
            assert(bytes[i] as int == env[k][i] as int);
            assert(env[k][i] != '\0');
        }
    }
    match c_texts(env) {
        Ok(c) => {
            assert(c =~= seq![encode_utf8(env[0]), encode_utf8(env[1]), encode_utf8(env[2])]);
        },
        Err(CFault::Nul(at)) => {
            let k = choose|k: int|
                0 <= k < env.len() && c_bytes(encode_utf8(#[trigger] env[k])) == Err::<
                    Seq<u8>,
                    CFault,
                >(CFault::Nul(at)) && forall|i: int|
                    0 <= i < k ==> !encode_utf8(#[trigger] env[i]).contains(0u8);
            assert(!encode_utf8(env[k]).contains(0u8));
        },
        _ => {},
    }
}

proof fn lemma_root_carries(config: VmConfig)
    ensures
        root_acts(config).len() == 1,
        carries(config, root_acts(config)[0]),
{
    law_c_path(config.rootfs@);
    lemma_nul(config.rootfs@);
}

proof fn lemma_workdir_carries(config: VmConfig)
    ensures
        workdir_acts(config).len() == 1,
        carries(config, workdir_acts(config)[0]),
{
    lemma_nul(encode_utf8(config.workdir@));
}

#[verifier::spinoff_prover]
proof fn lemma_net_carries(config: VmConfig, k: int)
    requires
        0 <= k < net_acts(config).len(),
    ensures
        carries(config, net_acts(config)[k]),
{
    let rootfs = config.rootfs@;
    let sock = vfkit_sock(rootfs);
    lemma_files_beside(config);
    if k == 7 {
        law_c_path(sock);
        lemma_nul(sock);
        assert(COMPAT_NET_FEATURES == 1 + 2 + 128 + 1024 + 2048 + 16384) by {
            assert(1u32 | 2u32 | 128u32 | 1024u32 | 2048u32 | 16384u32 == 19587u32) by (bit_vector);
        }
    } else if k == 3 {
        let args = gvproxy_args(rootfs);
        assert(args[1] == "unixgram://"@ + lossy_text(sock));
        assert(args[3] == "unix://"@ + lossy_text(api_sock(rootfs)));
    }
}

proof fn lemma_port_carries(config: VmConfig, k: int)
    requires
        0 <= k < port_acts(config).len(),
    ensures
        carries(config, port_acts(config)[k]),
{
    lemma_nul_in_list(config.port_map@);
}

#[verifier::spinoff_prover]
proof fn lemma_console_carries(config: VmConfig)
    ensures
        console_acts(config).len() == 1,
        carries(config, console_acts(config)[0]),
{
    lemma_files_beside(config);
    let file = console_file(config);
    law_c_path(file);
    lemma_nul(file);
    if !valid_utf8(file) {
        assert(lossy_text(file) == lossy_text(file));
    }
}

#[verifier::spinoff_prover]
proof fn lemma_exec_carries(config: VmConfig)
    ensures
        exec_acts(config).len() == 1,
        carries(config, exec_acts(config)[0]),
{
    lemma_nul(encode_utf8(config.exec_path@));
    lemma_nul_in_list(config.args@);
    if config.env@.len() == 0 {
        lemma_minimal_env();
    } else {
        lemma_nul_in_list(config.env@);
    }
}

proof fn lemma_part_carries(config: VmConfig, j: int, k: int)
    requires
        0 <= j < launch_parts(config).len(),
        0 <= k < launch_parts(config)[j].len(),
    ensures
        carries(config, launch_parts(config)[j][k]),
{
    assert(j == 0 || j == 1 || j == 2 || j == 3 || j == 4 || j == 5 || j == 6 || j == 7);
    if j == 1 {
        lemma_root_carries(config);
    } else if j == 2 {
        lemma_workdir_carries(config);
    } else if j == 3 {
        lemma_net_carries(config, k);
    } else if j == 4 {
        lemma_port_carries(config, k);
    } else if j == 5 {
        lemma_console_carries(config);
    } else if j == 6 {
        lemma_exec_carries(config);
    }
}

/// What every step of a launch hands over is what the configuration says: the
/// root file system, the working directory, the executable with its arguments
/// and environment, the ports, the console and the network are the configured
/// ones, byte for byte; and a launch fails only for a configured value that is
/// no C string.
pub proof fn law_launch_carries_the_config(config: VmConfig, i: int)
    requires
        0 <= i < launch_acts(config).len(),
    ensures
        carries(config, launch_acts(config)[i]),
{
    let parts = launch_parts(config);
    lemma_flow_acts(parts, i);
    let (j, k) = choose|j: int, k: int|
        0 <= j < parts.len() && 0 <= k < parts[j].len() && #[trigger] parts[j][k] == flow(parts)[i];
    assert(parts[j][k] == launch_acts(config)[i]);
    lemma_part_carries(config, j, k);
}

/// The place of an act in a launch.
pub open spec fn place(act: Act) -> int {
    match act {
        Act::RequireRootfs(_) => 0,
        Act::EnsureLibrary => 1,
        Act::SetLogLevel(_) => 2,
        Act::CreateContext => 3,
        Act::SetVmConfig(_, _) => 4,
        Act::SetRoot(_) => 5,
        Act::SetWorkdir(_) => 6,
        Act::RequireBinary(_) => 7,
        Act::RemoveFile(_) => 8,
        Act::StartGvproxy(_, _, _) => 9,
        Act::AwaitSocket(_) => 10,
        Act::DisableImplicitVsock => 11,
        Act::AddVsock(_) => 12,
        Act::AddNet(_, _, _, _, _) => 13,
        Act::SetPortMap(_) => 14,
        Act::SetConsole(_) => 15,
        Act::SetExec(_, _, _) => 16,
        Act::Boot => 17,
        Act::Fail(_) => 18,
    }
}

/// Whether acts stand in their places, each once; only stale files are removed
/// one after the other.
pub open spec fn in_place(acts: Seq<Act>) -> bool {
    forall|i: int, j: int|
        0 <= i < j < acts.len() ==> place(#[trigger] acts[i]) < place(#[trigger] acts[j]) || (
        acts[i] is RemoveFile && acts[j] is RemoveFile)
}

/// The first place of a part of a launch.
spec fn part_place(k: int) -> int {
    if k == 0 {
        0
    } else if k < 4 {
        k + 4
    } else {
        k + 10
    }
}

proof fn lemma_part_in_place(config: VmConfig, k: int)
    requires
        0 <= k < 8,
    ensures
        in_place(launch_parts(config)[k]),
        forall|i: int|
            0 <= i < launch_parts(config)[k].len() ==> part_place(k) <= place(
                #[trigger] launch_parts(config)[k][i],
            ) && (place(launch_parts(config)[k][i]) < part_place(k + 1) || (i == launch_parts(
                config,
            )[k].len() - 1 && launch_parts(config)[k][i] is Fail)),
{
    assert(k == 0 || k == 1 || k == 2 || k == 3 || k == 4 || k == 5 || k == 6 || k == 7);
}

proof fn lemma_flow_in_place(config: VmConfig, k: int)
    requires
        0 <= k <= 8,
    ensures
        in_place(flow(launch_parts(config).skip(k))),
        forall|i: int|
            0 <= i < flow(launch_parts(config).skip(k)).len() ==> part_place(k) <= place(
                #[trigger] flow(launch_parts(config).skip(k))[i],
            ),
    decreases 8 - k,
{
    let parts = launch_parts(config);
    let now = parts.skip(k);
    if k < 8 {
        lemma_part_in_place(config, k);
        lemma_flow_in_place(config, k + 1);
        let head = parts[k];
        let rest = flow(parts.skip(k + 1));
        assert(now[0] == head);
        assert(now.skip(1) =~= parts.skip(k + 1));
        if !fails(head) {
            let all = head + rest;
            assert forall|i: int, j: int| 0 <= i < j < all.len() implies place(#[trigger] all[i])
                < place(#[trigger] all[j]) || (all[i] is RemoveFile && all[j] is RemoveFile) by {
                if j < head.len() {
                    assert(all[i] == head[i] && all[j] == head[j]);
                } else if i >= head.len() {
                    assert(all[i] == rest[i - head.len()] && all[j] == rest[j - head.len()]);
                } else {
                    assert(all[i] == head[i] && all[j] == rest[j - head.len()]);
                    assert(place(head[i]) < part_place(k + 1));
                }
            }
            assert forall|i: int| 0 <= i < all.len() implies part_place(k) <= place(
                #[trigger] all[i],
            ) by {
                if i < head.len() {
                    assert(all[i] == head[i]);
                } else {
                    assert(all[i] == rest[i - head.len()]);
                }
            }
        }
    }
}

/// Every step of a launch has its place and stands once: the root file system
/// and the library are checked before libkrun is called, the context comes
/// before what is set on it, gvproxy is there before the interface that uses
/// it, and the boot comes last.
pub proof fn law_launch_order(config: VmConfig)
    ensures
        in_place(launch_acts(config)),
{
    lemma_flow_in_place(config, 0);
    assert(launch_parts(config).skip(0) =~= launch_parts(config));
}

/// Whether no part of a launch fails.
spec fn none_fails(parts: Seq<Seq<Act>>) -> bool {
    forall|j: int| 0 <= j < parts.len() ==> !fails(#[trigger] parts[j])
}

proof fn lemma_flow_whole(parts: Seq<Seq<Act>>)
    requires
        parts.len() > 0,
        parts.last() == seq![Act::Boot],
        forall|j: int| 0 <= j < parts.len() - 1 ==> plain_part(#[trigger] parts[j]),
    ensures
        flow(parts).len() > 0,
        flow(parts).last() is Boot <==> none_fails(parts),
        none_fails(parts) ==> forall|j: int, k: int|
            0 <= j < parts.len() && 0 <= k < parts[j].len() ==> flow(parts).contains(
                #[trigger] parts[j][k],
            ),
    decreases parts.len(),
{
    lemma_flow_ends(parts);
    let rest = parts.skip(1);
    let head = parts[0];
    if parts.len() == 1 {
        assert(rest.len() == 0);
        assert(flow(parts) =~= seq![Act::Boot]);
        assert forall|j: int, k: int|
            0 <= j < parts.len() && 0 <= k < parts[j].len() implies flow(parts).contains(
            #[trigger] parts[j][k],
        ) by {
            assert(flow(parts)[0] == parts[j][k]);
        }
    } else {
        assert(plain_part(parts[0]));
        assert(rest.last() == parts.last());
        assert forall|j: int| 0 <= j < rest.len() - 1 implies plain_part(#[trigger] rest[j]) by {
            assert(rest[j] == parts[j + 1]);
        }
        lemma_flow_whole(rest);
        if fails(head) {
            assert(flow(parts) == head);
            assert(!(flow(parts).last() is Boot));
        } else {
            let whole = head + flow(rest);
            assert(whole.last() == flow(rest).last());
            if none_fails(rest) {
                assert forall|j: int| 0 <= j < parts.len() implies !fails(#[trigger] parts[j]) by {
                    if j > 0 {
                        assert(parts[j] == rest[j - 1]);
                    }
                }
                assert forall|j: int, k: int|
                    0 <= j < parts.len() && 0 <= k < parts[j].len() implies whole.contains(
                    #[trigger] parts[j][k],
                ) by {
                    if j == 0 {
                        assert(whole[k] == parts[0][k]);
                    } else {
                        assert(rest[j - 1][k] == parts[j][k]);
                        assert(flow(rest).contains(rest[j - 1][k]));
                        let m = choose|m: int|
                            0 <= m < flow(rest).len() && flow(rest)[m] == parts[j][k];
                        assert(whole[head.len() + m] == parts[j][k]);
                    }
                }
            } else {
                let j = choose|j: int| 0 <= j < rest.len() && fails(#[trigger] rest[j]);
                assert(parts[j + 1] == rest[j]);
            }
        }
    }
}

proof fn lemma_launch_parts(config: VmConfig)
    ensures
        launch_acts(config).len() > 0,
        launch_acts(config).last() is Boot <==> none_fails(launch_parts(config)),
        none_fails(launch_parts(config)) ==> forall|j: int, k: int|
            0 <= j < launch_parts(config).len() && 0 <= k < launch_parts(config)[j].len()
                ==> launch_acts(config).contains(#[trigger] launch_parts(config)[j][k]),
{
    let parts = launch_parts(config);
    assert(plain_part(parts[0]));
    assert(plain_part(parts[1]));
    assert(plain_part(parts[2]));
    assert(plain_part(parts[3]));
    assert(plain_part(parts[4]));
    assert(plain_part(parts[5]));
    assert(plain_part(parts[6]));
    lemma_flow_whole(parts);
}

/// Whether a path can be handed to libkrun.
pub open spec fn handable(path: Seq<u8>) -> bool {
    valid_utf8(path) && !path.contains(0u8)
}

/// Whether none of the texts holds a NUL.
pub open spec fn no_nul(list: Seq<String>) -> bool {
    forall|i: int| 0 <= i < list.len() ==> !encode_utf8(#[trigger] list[i]@).contains(0u8)
}

proof fn lemma_list_handable(list: Seq<String>)
    ensures
        c_texts(texts(list)) is Ok <==> no_nul(list),
{
    let all = texts(list);
    law_c_texts(all);
    match c_texts(all) {
        Ok(c) => {
            assert forall|i: int| 0 <= i < list.len() implies !encode_utf8(
                #[trigger] list[i]@,
            ).contains(0u8) by {
                assert(c[i] == encode_utf8(all[i]));
            }
        },
        Err(CFault::Nul(at)) => {
            let k = choose|k: int|
                0 <= k < all.len() && c_bytes(encode_utf8(#[trigger] all[k])) == Err::<
                    Seq<u8>,
                    CFault,
                >(CFault::Nul(at)) && forall|i: int|
                    0 <= i < k ==> !encode_utf8(#[trigger] all[i]).contains(0u8);
            assert(encode_utf8(list[k]@).contains(0u8));
        },
        _ => {},
    }
}

/// A launch boots exactly where every configured value that it hands over is
/// a C string: the paths are valid UTF-8, and nothing holds a NUL. `sock` is
/// gvproxy's socket and `console` the console file, beside the root file
/// system.
pub proof fn law_launch_boots(config: VmConfig, sock: Seq<u8>, console: Seq<u8>)
    requires
        sock == vfkit_sock(config.rootfs@),
        console == console_file(config),
    ensures
        launch_acts(config).last() is Boot <==> {
            &&& handable(config.rootfs@)
            &&& !encode_utf8(config.workdir@).contains(0u8)
            &&& config.net is Gvproxy ==> handable(sock)
            &&& config.net is Tsi ==> no_nul(config.port_map@)
            &&& handable(console)
            &&& !encode_utf8(config.exec_path@).contains(0u8)
            &&& no_nul(config.args@)
            &&& no_nul(config.env@)
        },
        beside(config.rootfs@, sock, "gvproxy-vfkit.sock"@),
        match config.console_output {
            Some(c) => console == c@,
            None => beside(config.rootfs@, console, "console.log"@),
        },
{
    lemma_launch_parts(config);
    lemma_files_beside(config);
    lemma_list_handable(config.port_map@);
    lemma_list_handable(config.args@);
    lemma_list_handable(config.env@);
    lemma_minimal_env();
    let parts = launch_parts(config);
    assert(none_fails(parts) <==> !fails(parts[0]) && !fails(parts[1]) && !fails(parts[2])
        && !fails(parts[3]) && !fails(parts[4]) && !fails(parts[5]) && !fails(parts[6]) && !fails(
        parts[7],
    )) by {
        if !none_fails(parts) {
            let j = choose|j: int| 0 <= j < parts.len() && fails(#[trigger] parts[j]);
            assert(j == 0 || j == 1 || j == 2 || j == 3 || j == 4 || j == 5 || j == 6 || j == 7);
        }
    }
    assert(!fails(parts[0]));
    assert(!fails(parts[7]));
    assert(fails(parts[1]) <==> !handable(config.rootfs@));
    assert(fails(parts[2]) <==> encode_utf8(config.workdir@).contains(0u8));
    assert(fails(parts[3]) <==> config.net is Gvproxy && !handable(sock));
    assert(fails(parts[4]) <==> config.net is Tsi && !no_nul(config.port_map@));
    assert(fails(parts[5]) <==> !handable(console));
    assert(fails(parts[6]) <==> encode_utf8(config.exec_path@).contains(0u8) || !no_nul(
        config.args@,
    ) || !no_nul(config.env@));
}

/// A launch that boots has told libkrun all of the configuration: the log
/// level, the size, the root, the working directory, the console and the
/// executable in any case, the ports where TSI is the network and there are
/// any, and the network that is configured.
pub proof fn law_launch_is_whole(config: VmConfig)
    requires
        launch_acts(config).last() is Boot,
    ensures
        launch_acts(config).contains(Act::RequireRootfs(config.rootfs@)),
        launch_acts(config).contains(Act::EnsureLibrary),
        launch_acts(config).contains(Act::SetLogLevel(config.log_level)),
        launch_acts(config).contains(Act::CreateContext),
        launch_acts(config).contains(Act::SetVmConfig(config.vcpus, config.mem_mib)),
        launch_acts(config).contains(Act::SetRoot(config.rootfs@)),
        launch_acts(config).contains(Act::SetWorkdir(encode_utf8(config.workdir@))),
        exists|i: int|
            0 <= i < launch_acts(config).len() && #[trigger] launch_acts(config)[i] is SetConsole,
        exists|i: int|
            0 <= i < launch_acts(config).len() && #[trigger] launch_acts(config)[i] is SetExec,
        config.net is Tsi && config.port_map@.len() > 0 ==> exists|i: int|
            0 <= i < launch_acts(config).len() && #[trigger] launch_acts(config)[i] is SetPortMap,
        !(config.net is Tsi) ==> launch_acts(config).contains(Act::DisableImplicitVsock)
            && launch_acts(config).contains(Act::AddVsock(0)),
        config.net matches NetBackend::Gvproxy { binary } ==> {
            &&& launch_acts(config).contains(Act::RequireBinary(binary@))
            &&& exists|i: int|
                0 <= i < launch_acts(config).len() && #[trigger] launch_acts(config)[i]
                    is StartGvproxy
            &&& exists|i: int|
                0 <= i < launch_acts(config).len() && #[trigger] launch_acts(config)[i]
                    is AwaitSocket
            &&& exists|i: int|
                0 <= i < launch_acts(config).len() && #[trigger] launch_acts(config)[i] is AddNet
        },
{
    lemma_launch_parts(config);
    let parts = launch_parts(config);
    let acts = launch_acts(config);
    law_c_path(config.rootfs@);
    law_c_bytes(encode_utf8(config.workdir@));
    assert(!fails(parts[1]) && !fails(parts[2]) && !fails(parts[3]) && !fails(parts[4]) && !fails(
        parts[5],
    ) && !fails(parts[6]));
    assert(acts.contains(parts[0][0]));
    assert(acts.contains(parts[0][1]));
    assert(acts.contains(parts[0][2]));
    assert(acts.contains(parts[0][3]));
    assert(acts.contains(parts[0][4]));
    assert(acts.contains(parts[1][0]));
    assert(acts.contains(parts[2][0]));
    assert(acts.contains(parts[5][0]));
    assert(acts.contains(parts[6][0]));
    if config.net is Tsi && config.port_map@.len() > 0 {
        assert(acts.contains(parts[4][0]));
    }
    match config.net {
        NetBackend::Tsi => {},
        NetBackend::Disabled => {
            assert(acts.contains(parts[3][0]));
            assert(acts.contains(parts[3][1]));
        },
        NetBackend::Gvproxy { binary } => {
            assert(acts.contains(parts[3][0]));
            assert(acts.contains(parts[3][3]));
            assert(acts.contains(parts[3][4]));
            assert(acts.contains(parts[3][5]));
            assert(acts.contains(parts[3][6]));
            assert(acts.contains(parts[3][7]));
        },
    }
}

/// One socket carries the frames of the guest: the socket that gvproxy is told
/// to listen on is the one that is waited for and handed to libkrun, and what
/// an earlier run left there is removed first.
pub proof fn law_one_frame_socket(config: VmConfig)
    requires
        config.net is Gvproxy,
        launch_acts(config).last() is Boot,
    ensures
        exists|sock: Seq<u8>|
            {
                &&& #[trigger] launch_acts(config).contains(Act::AwaitSocket(sock))
                &&& launch_acts(config).contains(Act::RemoveFile(sock))
                &&& forall|i: int|
                    0 <= i < launch_acts(config).len() ==> (match #[trigger] launch_acts(
                        config,
                    )[i] {
                        Act::AddNet(s, _, _, _, _) => s == sock,
                        Act::AwaitSocket(s) => s == sock,
                        Act::StartGvproxy(_, args, _) => args[1] == "unixgram://"@ + lossy_text(
                            sock,
                        ),
                        _ => true,
                    })
            },
{
    lemma_launch_parts(config);
    let parts = launch_parts(config);
    let acts = launch_acts(config);
    let sock = vfkit_sock(config.rootfs@);
    law_c_path(sock);
    assert(acts.contains(parts[3][4]));
    assert(acts.contains(parts[3][1]));
    assert(acts.contains(Act::AwaitSocket(sock)));
    assert forall|i: int| 0 <= i < acts.len() implies (match #[trigger] acts[i] {
        Act::AddNet(s, _, _, _, _) => s == sock,
        Act::AwaitSocket(s) => s == sock,
        Act::StartGvproxy(_, args, _) => args[1] == "unixgram://"@ + lossy_text(sock),
        _ => true,
    }) by {
        lemma_flow_acts(parts, i);
        let (j, k) = choose|j: int, k: int|
            0 <= j < parts.len() && 0 <= k < parts[j].len() && #[trigger] parts[j][k] == flow(
                parts,
            )[i];
        assert(parts[j][k] == acts[i]);
        assert(j == 0 || j == 1 || j == 2 || j == 3 || j == 4 || j == 5 || j == 6 || j == 7);
    }
}

/// Two configurations that differ in anything the VM sees have different
/// launches: from the steps of a launch that boots, the configuration can be
/// read back.
pub proof fn law_launches_tell_configs_apart(a: VmConfig, b: VmConfig)
    requires
        launch_acts(a).last() is Boot,
        launch_acts(a) == launch_acts(b),
    ensures
        a.rootfs@ == b.rootfs@,
        a.log_level == b.log_level,
        a.vcpus == b.vcpus,
        a.mem_mib == b.mem_mib,
        a.workdir@ == b.workdir@,
        a.exec_path@ == b.exec_path@,
        texts(a.args@) == texts(b.args@),
        a.env@.len() > 0 && b.env@.len() > 0 ==> texts(a.env@) == texts(b.env@),
        match (a.console_output, b.console_output) {
            (Some(x), Some(y)) => x@ == y@,
            _ => true,
        },
        a.net is Tsi <==> b.net is Tsi,
        a.net is Gvproxy <==> b.net is Gvproxy,
        match (a.net, b.net) {
            (NetBackend::Gvproxy { binary: x }, NetBackend::Gvproxy { binary: y }) => x@ == y@,
            _ => true,
        },
        a.net is Tsi ==> texts(a.port_map@) == texts(b.port_map@),
{
    law_launch_is_whole(a);
    law_launch_is_whole(b);
    let acts = launch_acts(a);
    assert forall|act: Act| #[trigger] acts.contains(act) implies carries(a, act) && carries(
        b,
        act,
    ) by {
        let i = choose|i: int| 0 <= i < acts.len() && acts[i] == act;
        law_launch_carries_the_config(a, i);
        law_launch_carries_the_config(b, i);
    }
    assert(carries(b, Act::SetRoot(a.rootfs@)));
    assert(carries(b, Act::SetLogLevel(a.log_level)));
    assert(carries(b, Act::SetVmConfig(a.vcpus, a.mem_mib)));
    assert(carries(b, Act::SetWorkdir(encode_utf8(a.workdir@))));
    lemma_utf8_injective(a.workdir@, b.workdir@);
    let x = choose|i: int| 0 <= i < acts.len() && #[trigger] acts[i] is SetExec;
    assert(acts.contains(acts[x]));
    lemma_utf8_injective(a.exec_path@, b.exec_path@);
    let argv = acts[x]->SetExec_1;
    let env = acts[x]->SetExec_2;
    lemma_same_texts(argv, a.args@, b.args@);
    if a.env@.len() > 0 && b.env@.len() > 0 {
        lemma_same_texts(env, a.env@, b.env@);
    }
    let c = choose|i: int| 0 <= i < acts.len() && #[trigger] acts[i] is SetConsole;
    assert(acts.contains(acts[c]));
    if !(a.net is Tsi) {
        assert(acts.contains(Act::AddVsock(0)));
        assert(carries(b, Act::AddVsock(0)));
    }
    if !(b.net is Tsi) {
        assert(acts.contains(Act::AddVsock(0)));
        assert(carries(a, Act::AddVsock(0)));
    }
    match a.net {
        NetBackend::Gvproxy { binary } => {
            assert(carries(b, Act::RequireBinary(binary@)));
        },
        _ => {},
    }
    match b.net {
        NetBackend::Gvproxy { binary } => {
            assert(carries(a, Act::RequireBinary(binary@)));
        },
        _ => {},
    }
    if a.net is Tsi {
        if a.port_map@.len() > 0 || b.port_map@.len() > 0 {
            let p = choose|i: int| 0 <= i < acts.len() && #[trigger] acts[i] is SetPortMap;
            assert(acts.contains(acts[p]));
            lemma_same_texts(acts[p]->SetPortMap_0, a.port_map@, b.port_map@);
        } else {
            assert(texts(a.port_map@) =~= texts(b.port_map@));
        }
    }
}

proof fn lemma_same_texts(list: Seq<Seq<u8>>, a: Seq<String>, b: Seq<String>)
    requires
        same_texts(list, a),
        same_texts(list, b),
    ensures
        texts(a) == texts(b),
{
    assert forall|i: int| 0 <= i < a.len() implies texts(a)[i] == texts(b)[i] by {
        assert(list[i] == encode_utf8(a[i]@));
        lemma_utf8_injective(a[i]@, b[i]@);
    }
    assert(texts(a) =~= texts(b));
}

/// The libkrun call of a step: the name that libkrun has for what the step does.
pub open spec fn calls(step: LaunchStep, name: Seq<char>) -> bool {
    ||| step is SetLogLevel && name == "krun_set_log_level"@
    ||| step is CreateContext && name == "krun_create_ctx"@
    ||| step is SetVmConfig && name == "krun_set_vm_config"@
    ||| step is SetRoot && name == "krun_set_root"@
    ||| step is SetWorkdir && name == "krun_set_workdir"@
    ||| step is DisableImplicitVsock && name == "krun_disable_implicit_vsock"@
    ||| step is AddVsock && name == "krun_add_vsock"@
    ||| step is AddNet && name == "krun_add_net_unixgram"@
    ||| step is SetPortMap && name == "krun_set_port_map"@
    ||| step is SetConsole && name == "krun_set_console_output"@
    ||| step is SetExec && name == "krun_set_exec"@
}

/// Whether a step is a libkrun call.
pub open spec fn is_call(step: LaunchStep) -> bool {
    exists|name: Seq<char>| #[trigger] calls(step, name)
}

/// When a step fails: a libkrun call with every negative code and with no other;
/// what is required where it is missing; gvproxy's start, the library and the
/// fork where they report that they failed; and a step that is a failure in any
/// case. Everything else goes on.
pub proof fn law_step_fails(step: LaunchStep, report: StepReport, r: Result<(), VmError>)
    requires
        means(step, report, r),
    ensures
        r is Err <==> {
            ||| step is Fail
            ||| is_call(step) && (report matches StepReport::Code { code } && code < 0)
            ||| (step is RequireRootfs || step is RequireBinary || step is AwaitSocket)
                && report is Missing
            ||| step is EnsureLibrary && (report is ExeUnknown || report is RerunFailed)
            ||| step is StartGvproxy && (report is LogFailed || report is SpawnFailed)
            ||| step is Boot && report is ForkFailed
        },
{
    lemma_calls(step);
}

proof fn lemma_calls(step: LaunchStep)
    ensures
        is_call(step) <==> krun_func(step) is Some,
        forall|name: Seq<char>| #[trigger] calls(step, name) <==> krun_func(step) == Some(name),
{
    match krun_func(step) {
        Some(name) => {
            assert(calls(step, name));
        },
        None => {},
    }
}

/// What a failed step is told as: a libkrun call by its name and its code, what is
/// missing by its path, and the rest by the reason that came with the report.
pub proof fn law_step_errors(step: LaunchStep, report: StepReport, e: VmError)
    requires
        means(step, report, Err(e)),
    ensures
        match report {
            StepReport::Code { code } => step is Fail || (e matches VmError::Krun { func, code: c }
                && calls(step, func@) && c == code),
            StepReport::Missing => match step {
                LaunchStep::RequireRootfs { path } => e matches VmError::RootfsNotFound { path: p }
                    && p@ == lossy_text(path@),
                LaunchStep::RequireBinary { path } => e matches VmError::BinaryNotFound {
                    path: p,
                    ..
                } && p@ == lossy_text(path@),
                _ => true,
            },
            StepReport::ExeUnknown { error } => step is Fail || error@.is_suffix_of(e.text()),
            StepReport::RerunFailed { error } => step is Fail || error@.is_suffix_of(e.text()),
            StepReport::LogFailed { error } => step is Fail || error@.is_suffix_of(e.text()),
            StepReport::SpawnFailed { error } => step is Fail || error@.is_suffix_of(e.text()),
            StepReport::ForkFailed { error } => step is Fail || error@.is_suffix_of(e.text()),
            StepReport::Done => true,
        },
        step matches LaunchStep::Fail { error } ==> e == error,
{
    lemma_calls(step);
    let t = e.text();
    match report {
        StepReport::ExeUnknown { error } | StepReport::RerunFailed { error }
        | StepReport::LogFailed { error } | StepReport::SpawnFailed { error }
        | StepReport::ForkFailed { error } => {
            if !(step is Fail) {
                assert(error@ =~= t.subrange(t.len() - error@.len(), t.len() as int));
            }
        },
        _ => {},
    }
}

/// A launch fails for the first value that is no C string, in the order in which
/// the values are handed over: for the root before the working directory, and for
/// that before the executable and what comes with it.
pub proof fn law_first_fault(config: VmConfig)
    ensures
        !handable(config.rootfs@) ==> launch_acts(config).len() == 6 && (launch_acts(config)[5]
            matches Act::Fail(fault) && (match fault {
            CFault::NotUtf8(text) => !valid_utf8(config.rootfs@) && text == lossy_text(
                config.rootfs@,
            ),
            CFault::Nul(at) => nul_at(config.rootfs@, at),
        })),
        handable(config.rootfs@) && encode_utf8(config.workdir@).contains(0u8) ==> launch_acts(
            config,
        ).len() == 7 && (launch_acts(config)[6] matches Act::Fail(CFault::Nul(at)) && nul_at(
            encode_utf8(config.workdir@),
            at,
        )),
{
    let parts = launch_parts(config);
    law_c_path(config.rootfs@);
    lemma_nul(config.rootfs@);
    lemma_nul(encode_utf8(config.workdir@));
    let none = Seq::<Act>::empty();
    assert(parts.skip(0) =~= parts);
    assert(none + flow(parts.skip(0)) =~= flow(parts));
    lemma_flow_step(parts, 0, none);
    let first = none + parts[0];
    assert(!fails(parts[0]));
    lemma_flow_step(parts, 1, first);
    if handable(config.rootfs@) {
        assert(!fails(parts[1]));
        let second = first + parts[1];
        lemma_flow_step(parts, 2, second);
        if encode_utf8(config.workdir@).contains(0u8) {
            assert(fails(parts[2]));
            assert(flow(parts) == second + parts[2]);
        }
    } else {
        assert(fails(parts[1]));
        assert(flow(parts) == first + parts[1]);
    }
}

/// The executable is handed over with its own arguments and environment: where it
/// holds a NUL that is the fault, else the first of its arguments that does, else
/// the first of its variables.
pub proof fn law_exec_fault(config: VmConfig)
    ensures
        encode_utf8(config.exec_path@).contains(0u8) ==> (exec_acts(config)[0] matches Act::Fail(
            CFault::Nul(at),
        ) && nul_at(encode_utf8(config.exec_path@), at)),
        !encode_utf8(config.exec_path@).contains(0u8) && !no_nul(config.args@) ==> (exec_acts(
            config,
        )[0] matches Act::Fail(CFault::Nul(at)) && exists|bytes: Seq<u8>| #[trigger]
            nul_at(bytes, at) && encoded(texts(config.args@)).contains(bytes)),
{
    lemma_nul(encode_utf8(config.exec_path@));
    lemma_nul_in_list(config.args@);
    lemma_list_handable(config.args@);
}

/// Whether a step hands over what the configuration says.
pub open spec fn step_carries(config: VmConfig, step: LaunchStep) -> bool {
    match step {
        LaunchStep::RequireRootfs { path } => path.bytes@ == config.rootfs.bytes@,
        LaunchStep::SetLogLevel { level } => level == config.log_level,
        LaunchStep::SetVmConfig { vcpus, mem_mib } => vcpus == config.vcpus && mem_mib
            == config.mem_mib,
        LaunchStep::SetRoot { root } => root@ == config.rootfs.bytes@,
        LaunchStep::SetWorkdir { dir } => dir@ == encode_utf8(config.workdir@),
        LaunchStep::RequireBinary { path } => config.net matches NetBackend::Gvproxy { binary }
            && path.bytes@ == binary.bytes@,
        LaunchStep::StartGvproxy { binary, args, log } => {
            &&& config.net matches NetBackend::Gvproxy { binary: b } && binary.bytes@ == b.bytes@
            &&& args@.len() == 4
            &&& args@[0]@ == "-listen-vfkit"@
            &&& args@[2]@ == "-listen"@
            &&& beside(config.rootfs@, log@, "gvproxy.log"@)
        },
        LaunchStep::AwaitSocket { path } => beside(config.rootfs@, path@, "gvproxy-vfkit.sock"@),
        LaunchStep::RemoveFile { path } => beside(config.rootfs@, path@, "gvproxy-vfkit.sock"@)
            || beside(config.rootfs@, path@, "gvproxy-api.sock"@),
        LaunchStep::AddVsock { features } => features == 0,
        LaunchStep::AddNet { socket, fd, mac, features, flags } => beside(
            config.rootfs@,
            socket@,
            "gvproxy-vfkit.sock"@,
        ) && fd == -1 && mac@ == seq![0x5au8, 0x94u8, 0xefu8, 0xe4u8, 0x0cu8, 0xeeu8] && features
            == 1 + 2 + 128 + 1024 + 2048 + 16384 && flags == 1,
        LaunchStep::SetPortMap { entries } => same_texts(
            Seq::new(entries@.len(), |i: int| entries@[i]@),
            config.port_map@,
        ),
        LaunchStep::SetConsole { file } => match config.console_output {
            Some(path) => file@ == path.bytes@,
            None => beside(config.rootfs@, file@, "console.log"@),
        },
        LaunchStep::SetExec { program, argv, env } => program@ == encode_utf8(config.exec_path@)
            && same_texts(Seq::new(argv@.len(), |i: int| argv@[i]@), config.args@) && (
        config.env@.len() > 0 ==> same_texts(
            Seq::new(env@.len(), |i: int| env@[i]@),
            config.env@,
        )),
        LaunchStep::Fail { error } => exists|fault: CFault| #[trigger]
            reports(error, fault) && at_fault(config, fault),
        _ => true,
    }
}

/// The steps of a launch, as they are carried out, hand over what the
/// configuration says, in the same places as the acts that they are.
pub proof fn law_launch_steps(config: VmConfig, steps: Seq<LaunchStep>, i: int)
    requires
        steps_are(steps, launch_acts(config)),
        0 <= i < steps.len(),
    ensures
        steps.len() == launch_acts(config).len(),
        step_carries(config, steps[i]),
        same_kind(steps[i], launch_acts(config)[i]),
{
    let act = launch_acts(config)[i];
    assert(step_is(steps[i], act));
    law_launch_carries_the_config(config, i);
    match steps[i] {
        LaunchStep::SetPortMap { entries } => {
            assert(byte_lists(entries@) =~= Seq::new(entries@.len(), |i: int| entries@[i]@));
        },
        LaunchStep::SetExec { program, argv, env } => {
            assert(byte_lists(argv@) =~= Seq::new(argv@.len(), |i: int| argv@[i]@));
            assert(byte_lists(env@) =~= Seq::new(env@.len(), |i: int| env@[i]@));
        },
        LaunchStep::StartGvproxy { binary, args, log } => {
            assert(texts(args@).len() == args@.len());
            assert(texts(args@)[0] == args@[0]@);
            assert(texts(args@)[2] == args@[2]@);
        },
        _ => {},
    }
}

/// Whether a step does what an act is.
pub open spec fn same_kind(step: LaunchStep, act: Act) -> bool {
    match step {
        LaunchStep::RequireRootfs { .. } => act is RequireRootfs,
        LaunchStep::EnsureLibrary => act is EnsureLibrary,
        LaunchStep::SetLogLevel { .. } => act is SetLogLevel,
        LaunchStep::CreateContext => act is CreateContext,
        LaunchStep::SetVmConfig { .. } => act is SetVmConfig,
        LaunchStep::SetRoot { .. } => act is SetRoot,
        LaunchStep::SetWorkdir { .. } => act is SetWorkdir,
        LaunchStep::RequireBinary { .. } => act is RequireBinary,
        LaunchStep::RemoveFile { .. } => act is RemoveFile,
        LaunchStep::StartGvproxy { .. } => act is StartGvproxy,
        LaunchStep::AwaitSocket { .. } => act is AwaitSocket,
        LaunchStep::DisableImplicitVsock => act is DisableImplicitVsock,
        LaunchStep::AddVsock { .. } => act is AddVsock,
        LaunchStep::AddNet { .. } => act is AddNet,
        LaunchStep::SetPortMap { .. } => act is SetPortMap,
        LaunchStep::SetConsole { .. } => act is SetConsole,
        LaunchStep::SetExec { .. } => act is SetExec,
        LaunchStep::Boot => act is Boot,
        LaunchStep::Fail { .. } => act is Fail,
    }
}

} // verus!

//! What the host does while a microVM runs.

use super::config::{NetBackend, VmConfig};
use super::gvproxy::{announced_port, forward_port, forwards, Forward};
use super::launch::{api_sock, beside, console_file, console_log, gvproxy_api_sock};
use crate::path::{components, join_text, law_join_adds_a_step, lossy_text, Part, UnixPath};
use crate::text::{
    concat, concat3, lemma_occurs, occurs_in, owned, pieces, same_text, signed_decimal,
    signed_text, texts,
};
use vstd::prelude::*;
use vstd::utf8::*;

verus! {

/// Executable of the gateway configuration.
pub const GATEWAY_INIT: &'static str = "/srv/gateway-init.sh";

/// How long gvproxy gets to open its API socket, in milliseconds.
pub const API_PAUSE_MS: u64 = 500;

/// One step of the host while a VM runs.
#[derive(Debug, PartialEq, Eq)]
pub enum RunStep {
    /// Tells the user.
    Say { line: String },
    /// Waits.
    Pause { ms: u64 },
    /// Forwards a port over gvproxy's API socket, and tells of it.
    Forward { api_sock: UnixPath, forward: Forward },
    /// Waits for the guest's kubeconfig, copies it and brings up the control
    /// plane.
    Bootstrap { kubeconfig: UnixPath },
    /// Hands interrupts on to the VM.
    ForwardSignals,
    /// Waits for the end of the VM.
    AwaitExit,
    /// Stops gvproxy.
    StopGvproxy,
}

/// The values in a step.
pub enum RunAct {
    Say(Seq<char>),
    Pause(u64),
    Forward(Seq<u8>, Seq<char>),
    Bootstrap(Seq<u8>),
    ForwardSignals,
    AwaitExit,
    StopGvproxy,
}

/// Whether a step is the given one. A forwarding is known by its mapping.
pub open spec fn run_step_is(step: RunStep, act: RunAct) -> bool {
    match (step, act) {
        (RunStep::Say { line }, RunAct::Say(l)) => line@ == l,
        (RunStep::Pause { ms }, RunAct::Pause(m)) => ms == m,
        (RunStep::Forward { api_sock, forward }, RunAct::Forward(sock, mapping)) => api_sock@
            == sock && forwards(forward, mapping),
        (RunStep::Bootstrap { kubeconfig }, RunAct::Bootstrap(path)) => kubeconfig@ == path,
        (RunStep::ForwardSignals, RunAct::ForwardSignals) => true,
        (RunStep::AwaitExit, RunAct::AwaitExit) => true,
        (RunStep::StopGvproxy, RunAct::StopGvproxy) => true,
        _ => false,
    }
}

/// Whether a list of steps is the given one.
pub open spec fn run_steps_are(steps: Seq<RunStep>, acts: Seq<RunAct>) -> bool {
    steps.len() == acts.len() && forall|i: int|
        0 <= i < steps.len() ==> run_step_is(#[trigger] steps[i], acts[i])
}

/// The line that announces a port mapping.
pub open spec fn port_line(mapping: Seq<char>) -> Seq<char> {
    "  port "@ + mapping + " -> http://localhost:"@ + pieces(mapping, ':')[0]
}

/// The announcement of a VM.
pub open spec fn announce_acts(config: VmConfig, pid: i32) -> Seq<RunAct> {
    let mappings = texts(config.port_map@);
    seq![RunAct::Say("VM started (child pid "@ + signed_decimal(pid as int) + ")"@)] + Seq::new(
        mappings.len(),
        |i: int| RunAct::Say(port_line(mappings[i])),
    ) + seq![RunAct::Say("Console output: "@ + lossy_text(console_file(config)))]
}

/// The port forwardings, where gvproxy is the network.
pub open spec fn forward_acts(config: VmConfig) -> Seq<RunAct> {
    if config.net is Gvproxy {
        let mappings = texts(config.port_map@);
        seq![
            RunAct::Pause(API_PAUSE_MS),
            RunAct::Say("Setting up gvproxy port forwarding..."@),
        ] + Seq::new(
            mappings.len(),
            |i: int| RunAct::Forward(api_sock(config.rootfs@), mappings[i]),
        )
    } else {
        Seq::empty()
    }
}

/// The control plane, where the VM is a gateway.
pub open spec fn bootstrap_acts(config: VmConfig) -> Seq<RunAct> {
    if config.exec_path@ == GATEWAY_INIT@ {
        seq![
            RunAct::Say("Waiting for kubeconfig..."@),
            RunAct::Bootstrap(join_text(config.rootfs@, "etc/rancher/k3s/k3s.yaml"@)),
        ]
    } else {
        Seq::empty()
    }
}

/// The end of a VM.
pub open spec fn exit_acts(config: VmConfig) -> Seq<RunAct> {
    seq![
        RunAct::Say("Press Ctrl+C to stop."@),
        RunAct::ForwardSignals,
        RunAct::AwaitExit,
    ] + if config.net is Gvproxy {
        seq![RunAct::StopGvproxy, RunAct::Say("gvproxy stopped"@)]
    } else {
        Seq::<RunAct>::empty()
    }
}

/// What the host does while a VM runs, in order.
pub open spec fn run_acts(config: VmConfig, pid: i32) -> Seq<RunAct> {
    announce_acts(config, pid) + forward_acts(config) + bootstrap_acts(config) + exit_acts(config)
}

fn push_run(
    steps: &mut Vec<RunStep>,
    step: RunStep,
    Ghost(acts): Ghost<Seq<RunAct>>,
    Ghost(act): Ghost<RunAct>,
)
    requires
        run_steps_are(old(steps)@, acts),
        run_step_is(step, act),
    ensures
        run_steps_are(final(steps)@, acts.push(act)),
{
    let ghost before = steps@;
    steps.push(step);
    assert forall|i: int| 0 <= i < steps@.len() implies run_step_is(
        #[trigger] steps@[i],
        acts.push(act)[i],
    ) by {
        if i < before.len() {
            assert(run_step_is(before[i], acts[i]));
        }
    }
}

fn announce(config: &VmConfig, pid: i32) -> (r: Vec<RunStep>)
    ensures
        run_steps_are(r@, announce_acts(*config, pid)),
{
    let ghost mappings = texts(config.port_map@);
    let ghost ports = Seq::new(mappings.len(), |i: int| RunAct::Say(port_line(mappings[i])));
    let ghost head = seq![
        RunAct::Say("VM started (child pid "@ + signed_decimal(pid as int) + ")"@),
    ];
    let mut steps: Vec<RunStep> = Vec::new();
    steps.push(
        RunStep::Say { line: concat3("VM started (child pid ", signed_text(pid).as_str(), ")") },
    );
    let mut i: usize = 0;
    assert(head + ports.take(0) =~= head);
    while i < config.port_map.len()
        invariant
            i <= config.port_map.len(),
            mappings == texts(config.port_map@),
            ports == Seq::new(mappings.len(), |i: int| RunAct::Say(port_line(mappings[i]))),
            run_steps_are(steps@, head + ports.take(i as int)),
        decreases config.port_map.len() - i,
    {
        let mapping: &str = config.port_map[i].as_str();
        let mut line: String = concat3("  port ", mapping, " -> http://localhost:");
        line.append(announced_port(mapping).as_str());
        push_run(
            &mut steps,
            RunStep::Say { line },
            Ghost(head + ports.take(i as int)),
            Ghost(ports[i as int]),
        );
        assert((head + ports.take(i as int)).push(ports[i as int]) =~= head + ports.take(i + 1));
        i = i + 1;
    }
    assert(ports.take(i as int) =~= ports);
    let ghost console = RunAct::Say("Console output: "@ + lossy_text(console_file(*config)));
    push_run(
        &mut steps,
        RunStep::Say { line: concat("Console output: ", console_log(config).display().as_str()) },
        Ghost(head + ports),
        Ghost(console),
    );
    assert((head + ports).push(console) =~= announce_acts(*config, pid));
    steps
}

fn forwardings(config: &VmConfig) -> (r: Vec<RunStep>)
    ensures
        run_steps_are(r@, forward_acts(*config)),
{
    let mut steps: Vec<RunStep> = Vec::new();
    match &config.net {
        NetBackend::Gvproxy { binary: _ } => {},
        _ => {
            return steps;
        },
    }
    let sock: UnixPath = gvproxy_api_sock(&config.rootfs);
    let ghost mappings = texts(config.port_map@);
    let ghost ports = Seq::new(mappings.len(), |i: int| RunAct::Forward(sock@, mappings[i]));
    let ghost head = seq![
        RunAct::Pause(API_PAUSE_MS),
        RunAct::Say("Setting up gvproxy port forwarding..."@),
    ];
    steps.push(RunStep::Pause { ms: API_PAUSE_MS });
    steps.push(RunStep::Say { line: owned("Setting up gvproxy port forwarding...") });
    let mut i: usize = 0;
    assert(head + ports.take(0) =~= head);
    while i < config.port_map.len()
        invariant
            i <= config.port_map.len(),
            mappings == texts(config.port_map@),
            ports == Seq::new(mappings.len(), |i: int| RunAct::Forward(sock@, mappings[i])),
            run_steps_are(steps@, head + ports.take(i as int)),
        decreases config.port_map.len() - i,
    {
        let forward: Forward = forward_port(config.port_map[i].as_str());
        push_run(
            &mut steps,
            RunStep::Forward { api_sock: sock.clone(), forward },
            Ghost(head + ports.take(i as int)),
            Ghost(ports[i as int]),
        );
        assert((head + ports.take(i as int)).push(ports[i as int]) =~= head + ports.take(i + 1));
        i = i + 1;
    }
    assert(ports.take(i as int) =~= ports);
    assert(head + ports =~= forward_acts(*config));
    steps
}

fn bootstrapping(config: &VmConfig) -> (r: Vec<RunStep>)
    ensures
        run_steps_are(r@, bootstrap_acts(*config)),
{
    let mut steps: Vec<RunStep> = Vec::new();
    if same_text(config.exec_path.as_str(), GATEWAY_INIT) {
        steps.push(RunStep::Say { line: owned("Waiting for kubeconfig...") });
        steps.push(
            RunStep::Bootstrap { kubeconfig: config.rootfs.join("etc/rancher/k3s/k3s.yaml") },
        );
    }
    steps
}

fn ending(config: &VmConfig) -> (r: Vec<RunStep>)
    ensures
        run_steps_are(r@, exit_acts(*config)),
{
    let mut steps: Vec<RunStep> = Vec::new();
    steps.push(RunStep::Say { line: owned("Press Ctrl+C to stop.") });
    steps.push(RunStep::ForwardSignals);
    steps.push(RunStep::AwaitExit);
    match &config.net {
        NetBackend::Gvproxy { binary: _ } => {
            steps.push(RunStep::StopGvproxy);
            steps.push(RunStep::Say { line: owned("gvproxy stopped") });
        },
        _ => {},
    }
    steps
}

fn append_run(
    steps: &mut Vec<RunStep>,
    more: Vec<RunStep>,
    Ghost(a): Ghost<Seq<RunAct>>,
    Ghost(b): Ghost<Seq<RunAct>>,
)
    requires
        run_steps_are(old(steps)@, a),
        run_steps_are(more@, b),
    ensures
        run_steps_are(final(steps)@, a + b),
{
    let ghost head = steps@;
    let ghost tail = more@;
    let mut more = more;
    steps.append(&mut more);
    assert forall|i: int| 0 <= i < steps@.len() implies run_step_is(
        #[trigger] steps@[i],
        (a + b)[i],
    ) by {
        if i < head.len() {
            assert(run_step_is(head[i], a[i]));
        } else {
            assert(run_step_is(tail[i - head.len()], b[i - head.len()]));
        }
    }
}

/// What the host does once the VM has started as the given process, in order:
/// announce it, forward its ports, bring up the control plane of a gateway, and
/// wait for its end.
pub fn running(config: &VmConfig, pid: i32) -> (r: Vec<RunStep>)
    ensures
        run_steps_are(r@, run_acts(*config, pid)),
{
    let ghost a = announce_acts(*config, pid);
    let ghost b = forward_acts(*config);
    let ghost c = bootstrap_acts(*config);
    let ghost d = exit_acts(*config);
    let mut steps: Vec<RunStep> = announce(config, pid);
    append_run(&mut steps, forwardings(config), Ghost(a), Ghost(b));
    append_run(&mut steps, bootstrapping(config), Ghost(a + b), Ghost(c));
    append_run(&mut steps, ending(config), Ghost(a + b + c), Ghost(d));
    steps
}

/// Whether the guest has written its kubeconfig.
pub open spec fn ready(is_file: bool, len: Option<u64>) -> bool {
    is_file && len is Some && len->0 > 0
}

/// Whether the guest has written its kubeconfig: it is a file that is not
/// empty. `len` is its length, where that is known.
pub fn kubeconfig_ready(is_file: bool, len: Option<u64>) -> (r: bool)
    ensures
        r == ready(is_file, len),
{
    match len {
        Some(n) => is_file && n > 0,
        None => false,
    }
}

/// The directory of the home directory that holds kubeconfigs.
pub open spec fn kube_dir(home: Option<String>) -> Seq<u8> {
    join_text(
        encode_utf8(
            match home {
                Some(h) => h@,
                None => "/tmp"@,
            },
        ),
        ".kube"@,
    )
}

/// Where the guest's kubeconfig is copied to: the directory to create and the
/// file. `home` is the home directory, where it is set.
pub fn kubeconfig_copy(home: &Option<String>) -> (r: (UnixPath, UnixPath))
    ensures
        r.0@ == kube_dir(*home),
        r.1@ == join_text(kube_dir(*home), "gateway.yaml"@),
{
    let dir: UnixPath = match home {
        Some(h) => UnixPath::new(h.as_str()).join(".kube"),
        None => UnixPath::new("/tmp").join(".kube"),
    };
    let file: UnixPath = dir.join("gateway.yaml");
    (dir, file)
}

/// What came of copying the kubeconfig.
#[derive(Debug)]
pub enum CopyOutcome {
    Copied,
    WriteFailed { error: String },
    ReadFailed { error: String },
}

/// The lines that tell of the copy, as text.
pub open spec fn copy_texts_of(dest: Seq<u8>, outcome: CopyOutcome) -> Seq<Seq<char>> {
    match outcome {
        CopyOutcome::Copied => seq![
            "Kubeconfig: "@ + lossy_text(dest),
            "  export KUBECONFIG="@ + lossy_text(dest),
        ],
        CopyOutcome::WriteFailed { error } => seq!["  failed to write kubeconfig: "@ + error@],
        CopyOutcome::ReadFailed { error } => seq!["  failed to read kubeconfig: "@ + error@],
    }
}

/// The lines that tell of the copy.
pub fn copy_lines(dest: &UnixPath, outcome: &CopyOutcome) -> (r: Vec<String>)
    ensures
        texts(r@) == copy_texts_of(dest@, *outcome),
{
    let mut lines: Vec<String> = Vec::new();
    match outcome {
        CopyOutcome::Copied => {
            lines.push(concat("Kubeconfig: ", dest.display().as_str()));
            lines.push(concat("  export KUBECONFIG=", dest.display().as_str()));
        },
        CopyOutcome::WriteFailed { error } => {
            lines.push(concat("  failed to write kubeconfig: ", error.as_str()));
        },
        CopyOutcome::ReadFailed { error } => {
            lines.push(concat("  failed to read kubeconfig: ", error.as_str()));
        },
    }
    assert(texts(lines@) =~= copy_texts_of(dest@, *outcome));
    lines
}

// ---------------------------------------------------------------------
// Bringing up the control plane
// ---------------------------------------------------------------------
/// Where the host stands in bringing up the control plane of a gateway.
#[derive(Debug, PartialEq, Eq)]
pub enum BringUp {
    /// Waits for the guest's kubeconfig.
    Awaiting,
    /// Creates the directory, and copies the kubeconfig to the file.
    Copying { dir: UnixPath, dest: UnixPath },
    /// Bootstraps the control plane with the copy.
    Bootstrapping { dest: UnixPath },
    /// Nothing is left to do; whether the control plane is up.
    Over { up: bool },
}

/// What came of a part of bringing up the control plane.
#[derive(Debug)]
pub enum BringUpEvent {
    /// The wait has ended; `home` is the home directory, where it is set.
    Waited { found: bool, home: Option<String> },
    /// The kubeconfig was copied, or was not.
    Copied { outcome: CopyOutcome },
    /// The control plane was bootstrapped, or was not for this reason.
    Bootstrapped { fault: Option<String> },
}

/// The values in a stage of bringing up the control plane.
pub enum BringUpAt {
    Awaiting,
    Copying(Seq<u8>, Seq<u8>),
    Bootstrapping(Seq<u8>),
    Over(bool),
}

impl View for BringUp {
    type V = BringUpAt;

    open spec fn view(&self) -> BringUpAt {
        match *self {
            BringUp::Awaiting => BringUpAt::Awaiting,
            BringUp::Copying { dir, dest } => BringUpAt::Copying(dir@, dest@),
            BringUp::Bootstrapping { dest } => BringUpAt::Bootstrapping(dest@),
            BringUp::Over { up } => BringUpAt::Over(up),
        }
    }
}

/// Where an event leads in bringing up the control plane, and the lines that
/// tell of it. Without a kubeconfig nothing more is done. A copy that failed
/// does not keep the bootstrap from being tried. An event that is not of the
/// stage changes nothing.
pub open spec fn brings_up(at: BringUpAt, event: BringUpEvent) -> (BringUpAt, Seq<Seq<char>>) {
    match (at, event) {
        (BringUpAt::Awaiting, BringUpEvent::Waited { found, home }) => if found {
            (
                BringUpAt::Copying(kube_dir(home), join_text(kube_dir(home), "gateway.yaml"@)),
                Seq::empty(),
            )
        } else {
            (
                BringUpAt::Over(false),
                seq!["  kubeconfig not found after 120s (k3s may still be starting)"@],
            )
        },
        (BringUpAt::Copying(_, dest), BringUpEvent::Copied { outcome }) => (
            BringUpAt::Bootstrapping(dest),
            copy_texts_of(dest, outcome),
        ),
        (BringUpAt::Bootstrapping(_), BringUpEvent::Bootstrapped { fault }) => match fault {
            None => (BringUpAt::Over(true), Seq::empty()),
            Some(e) => (
                BringUpAt::Over(false),
                seq![
                    "Bootstrap failed: "@ + e@,
                    "  The VM is running but NemoClaw may not be fully operational."@,
                ],
            ),
        },
        _ => (at, Seq::empty()),
    }
}

/// Where an event leads in bringing up the control plane, and the lines that
/// tell of it.
pub fn bring_up(at: BringUp, event: BringUpEvent) -> (r: (BringUp, Vec<String>))
    ensures
        r.0@ == brings_up(at@, event).0,
        texts(r.1@) == brings_up(at@, event).1,
{
    let ghost expected = brings_up(at@, event).1;
    let mut lines: Vec<String> = Vec::new();
    match (at, event) {
        (BringUp::Awaiting, BringUpEvent::Waited { found, home }) => {
            if found {
                let (dir, dest) = kubeconfig_copy(&home);
                assert(texts(lines@) =~= expected);
                (BringUp::Copying { dir, dest }, lines)
            } else {
                lines.push(owned("  kubeconfig not found after 120s (k3s may still be starting)"));
                assert(texts(lines@) =~= expected);
                (BringUp::Over { up: false }, lines)
            }
        },
        (BringUp::Copying { dir: _, dest }, BringUpEvent::Copied { outcome }) => {
            let told: Vec<String> = copy_lines(&dest, &outcome);
            (BringUp::Bootstrapping { dest }, told)
        },
        (BringUp::Bootstrapping { dest: _ }, BringUpEvent::Bootstrapped { fault }) => match fault {
            None => {
                assert(texts(lines@) =~= expected);
                (BringUp::Over { up: true }, lines)
            },
            Some(e) => {
                lines.push(concat("Bootstrap failed: ", e.as_str()));
                lines.push(owned("  The VM is running but NemoClaw may not be fully operational."));
                assert(texts(lines@) =~= expected);
                (BringUp::Over { up: false }, lines)
            },
        },
        (at, _) => {
            assert(texts(lines@) =~= expected);
            (at, lines)
        },
    }
}

/// Bringing up the control plane goes from the wait to the copy to the
/// bootstrap: the bootstrap is reached if and only if the kubeconfig was found,
/// whatever came of the copy, with the path that the copy was for; and the
/// control plane is up if and only if both the wait and the bootstrap
/// succeeded.
pub proof fn law_bring_up_order(
    found: bool,
    home: Option<String>,
    outcome: CopyOutcome,
    fault: Option<String>,
)
    ensures
        ({
            let waited = brings_up(BringUpAt::Awaiting, BringUpEvent::Waited { found, home }).0;
            let copied = brings_up(waited, BringUpEvent::Copied { outcome }).0;
            let over = brings_up(copied, BringUpEvent::Bootstrapped { fault }).0;
            &&& waited is Copying <==> found
            &&& found ==> waited == BringUpAt::Copying(
                kube_dir(home),
                join_text(kube_dir(home), "gateway.yaml"@),
            )
            &&& copied is Bootstrapping <==> found
            &&& found ==> copied == BringUpAt::Bootstrapping(
                join_text(kube_dir(home), "gateway.yaml"@),
            )
            &&& over == BringUpAt::Over(found && fault is None)
        }),
{
}

/// Whether a step of the host is what the configuration and the process say.
pub open spec fn follows(config: VmConfig, pid: i32, act: RunAct) -> bool {
    match act {
        RunAct::Say(_) => true,
        RunAct::Pause(ms) => config.net is Gvproxy && ms == 500,
        RunAct::Forward(sock, mapping) => config.net is Gvproxy && beside(
            config.rootfs@,
            sock,
            "gvproxy-api.sock"@,
        ) && texts(config.port_map@).contains(mapping),
        RunAct::Bootstrap(path) => config.exec_path@ == "/srv/gateway-init.sh"@ && path
            == join_text(config.rootfs@, "etc/rancher/k3s/k3s.yaml"@),
        RunAct::ForwardSignals => true,
        RunAct::AwaitExit => true,
        RunAct::StopGvproxy => config.net is Gvproxy,
    }
}

/// The place of a step of the host.
pub open spec fn run_place(act: RunAct) -> int {
    match act {
        RunAct::Say(_) => 0,
        RunAct::Pause(_) => 1,
        RunAct::Forward(_, _) => 2,
        RunAct::Bootstrap(_) => 3,
        RunAct::ForwardSignals => 4,
        RunAct::AwaitExit => 5,
        RunAct::StopGvproxy => 6,
    }
}

proof fn lemma_run_parts(config: VmConfig, pid: i32, i: int) -> (k: int)
    requires
        0 <= i < run_acts(config, pid).len(),
    ensures
        ({
            let a = announce_acts(config, pid);
            let b = forward_acts(config);
            let c = bootstrap_acts(config);
            let d = exit_acts(config);
            let act = run_acts(config, pid)[i];
            if i < a.len() {
                k == i && act == a[k]
            } else if i < a.len() + b.len() {
                k == i - a.len() && act == b[k]
            } else if i < a.len() + b.len() + c.len() {
                k == i - a.len() - b.len() && act == c[k]
            } else {
                k == i - a.len() - b.len() - c.len() && 0 <= k < d.len() && act == d[k]
            }
        }),
{
    let a = announce_acts(config, pid);
    let b = forward_acts(config);
    let c = bootstrap_acts(config);
    if i < a.len() {
        i
    } else if i < a.len() + b.len() {
        i - a.len()
    } else if i < a.len() + b.len() + c.len() {
        i - a.len() - b.len()
    } else {
        i - a.len() - b.len() - c.len()
    }
}

/// What the host does while a VM runs is what the configuration says, in its
/// order: ports are forwarded only through gvproxy, each a configured mapping, over
/// the API socket beside the root file system; the control plane is brought up
/// for the gateway's own executable alone, from the kubeconfig in the root file
/// system; the end of the VM is waited for once, when interrupts are handed on;
/// and gvproxy is stopped behind that.
#[verifier::rlimit(40)]
#[verifier::spinoff_prover]
pub proof fn law_run_follows_the_config(config: VmConfig, pid: i32, i: int, j: int)
    requires
        0 <= i < j < run_acts(config, pid).len(),
    ensures
        follows(config, pid, run_acts(config, pid)[i]),
        follows(config, pid, run_acts(config, pid)[j]),
        !(run_acts(config, pid)[i] is Say) && !(run_acts(config, pid)[j] is Say) ==> run_place(
            run_acts(config, pid)[i],
        ) < run_place(run_acts(config, pid)[j]) || (run_acts(config, pid)[i] is Forward
            && run_acts(config, pid)[j] is Forward),
{
    let k = lemma_run_parts(config, pid, i);
    let l = lemma_run_parts(config, pid, j);
    lemma_api_beside(config.rootfs@);
    lemma_forward_mapping(config, run_acts(config, pid)[i]);
    lemma_forward_mapping(config, run_acts(config, pid)[j]);
}

proof fn lemma_forward_mapping(config: VmConfig, act: RunAct)
    ensures
        forward_acts(config).contains(act) ==> (act matches RunAct::Forward(sock, mapping) ==> sock
            == api_sock(config.rootfs@) && texts(config.port_map@).contains(mapping)),
{
    if forward_acts(config).contains(act) {
        let acts = forward_acts(config);
        let i = choose|i: int| 0 <= i < acts.len() && acts[i] == act;
        let mappings = texts(config.port_map@);
        if i >= 2 {
            assert(acts[i] == RunAct::Forward(api_sock(config.rootfs@), mappings[i - 2]));
        }
    }
}

proof fn lemma_api_beside(rootfs: Seq<u8>)
    ensures
        beside(rootfs, api_sock(rootfs), "gvproxy-api.sock"@),
{
    reveal_strlit("gvproxy-api.sock");
    crate::path::law_parent_drops_last_step(rootfs);
    law_join_adds_a_step(super::launch::run_dir(rootfs), "gvproxy-api.sock"@);
}

/// The host leaves nothing out: it tells the process, every mapping and the
/// console file; it forwards every mapping, in order, where gvproxy is the
/// network; it brings up the control plane of a gateway; it hands interrupts on,
/// waits for the end, and stops gvproxy where it was started.
pub proof fn law_run_is_whole(config: VmConfig, pid: i32)
    ensures
        ({
            let acts = run_acts(config, pid);
            let mappings = texts(config.port_map@);
            &&& acts[0] matches RunAct::Say(line) && occurs_in(signed_decimal(pid as int), line)
            &&& forall|k: int|
                0 <= k < mappings.len() ==> (acts[k + 1] matches RunAct::Say(line) && occurs_in(
                    #[trigger] mappings[k],
                    line,
                ))
            &&& exists|line: Seq<char>| #[trigger]
                acts.contains(RunAct::Say(line)) && lossy_text(console_file(config)).is_suffix_of(
                    line,
                )
            &&& config.net is Gvproxy ==> exists|at: int|
                0 <= at && at + mappings.len() < acts.len() && #[trigger] forwards_from(
                    acts,
                    at,
                    api_sock(config.rootfs@),
                    mappings,
                )
            &&& config.exec_path@ == "/srv/gateway-init.sh"@ ==> acts.contains(
                RunAct::Bootstrap(join_text(config.rootfs@, "etc/rancher/k3s/k3s.yaml"@)),
            )
            &&& acts.contains(RunAct::ForwardSignals)
            &&& acts.contains(RunAct::AwaitExit)
            &&& config.net is Gvproxy ==> acts.contains(RunAct::StopGvproxy)
        }),
{
    let acts = run_acts(config, pid);
    let mappings = texts(config.port_map@);
    let a = announce_acts(config, pid);
    let b = forward_acts(config);
    let c = bootstrap_acts(config);
    let d = exit_acts(config);
    let m = a.len() + b.len() + c.len();
    let shown = signed_decimal(pid as int);
    assert(acts[0] == a[0]);
    lemma_occurs("VM started (child pid "@, shown, ")"@);
    assert forall|k: int| 0 <= k < mappings.len() implies (acts[k + 1] matches RunAct::Say(line)
        && occurs_in(#[trigger] mappings[k], line)) by {
        assert(acts[k + 1] == a[k + 1]);
        assert(a[k + 1] == RunAct::Say(port_line(mappings[k])));
        let rest = " -> http://localhost:"@ + pieces(mappings[k], ':')[0];
        assert(port_line(mappings[k]) =~= "  port "@ + mappings[k] + rest);
        lemma_occurs("  port "@, mappings[k], rest);
    }
    let file = lossy_text(console_file(config));
    let told = "Console output: "@ + file;
    assert(acts[a.len() - 1] == a[a.len() - 1]);
    assert(acts[a.len() - 1] == RunAct::Say(told));
    assert(acts.contains(RunAct::Say(told)));
    assert(file =~= told.subrange(told.len() - file.len(), told.len() as int));
    if config.net is Gvproxy {
        let at = a.len() + 2int;
        assert forall|k: int| 0 <= k < mappings.len() implies #[trigger] forward_at(
            acts,
            at + k,
            api_sock(config.rootfs@),
            mappings[k],
        ) by {
            assert(acts[at + k] == b[k + 2]);
        }
        assert(forwards_from(acts, at, api_sock(config.rootfs@), mappings));
        assert(d[3] == RunAct::StopGvproxy);
        assert(acts[m + 3int] == d[3]);
    }
    if config.exec_path@ == "/srv/gateway-init.sh"@ {
        assert(acts[a.len() + b.len() + 1int] == c[1]);
    }
    assert(acts[m + 1int] == d[1]);
    assert(acts[m + 2int] == d[2]);
}

/// Whether the step with number `i` forwards a mapping over a socket.
pub open spec fn forward_at(acts: Seq<RunAct>, i: int, sock: Seq<u8>, mapping: Seq<char>) -> bool {
    acts[i] == RunAct::Forward(sock, mapping)
}

/// Whether the steps from number `at` on forward the mappings of a list, one after
/// the other.
pub open spec fn forwards_from(
    acts: Seq<RunAct>,
    at: int,
    sock: Seq<u8>,
    mappings: Seq<Seq<char>>,
) -> bool {
    forall|k: int|
        0 <= k < mappings.len() ==> #[trigger] forward_at(acts, at + k, sock, mappings[k])
}

/// The host port that a mapping is announced with is all of what stands before its
/// first colon.
pub proof fn law_announced_port(host: Seq<char>, guest: Seq<char>)
    requires
        !host.contains(':'),
    ensures
        port_line(host + seq![':'] + guest) == "  port "@ + host + seq![':'] + guest
            + " -> http://localhost:"@ + host,
        port_line(host) == "  port "@ + host + " -> http://localhost:"@ + host,
{
    assert(host + seq![':'] + guest =~= host.push(':') + guest);
    crate::text::lemma_pieces_of_concat(host, ':', guest);
    crate::text::lemma_pieces_without(host, ':');
    assert((pieces(host, ':') + pieces(guest, ':'))[0] == host);
    assert(port_line(host + seq![':'] + guest) =~= "  port "@ + host + seq![':'] + guest
        + " -> http://localhost:"@ + host);
}

/// Where the kubeconfig is copied to: `.kube` in the home directory, `/tmp` where
/// none is set.
pub proof fn law_kube_dir(home: Option<String>)
    ensures
        home matches Some(h) ==> components(kube_dir(home)) == components(encode_utf8(h@)).push(
            Part::Name(encode_utf8(".kube"@)),
        ),
        home is None ==> components(kube_dir(home)) == components(encode_utf8("/tmp"@)).push(
            Part::Name(encode_utf8(".kube"@)),
        ),
{
    reveal_strlit(".kube");
    law_join_adds_a_step(encode_utf8(match home {
        Some(h) => h@,
        None => "/tmp"@,
    }), ".kube"@);
}

/// What is told of the copy: where it is, for use as it stands, or why it failed.
pub proof fn law_copy_lines(dest: Seq<u8>, outcome: CopyOutcome)
    ensures
        ({
            let lines = copy_texts_of(dest, outcome);
            match outcome {
                CopyOutcome::Copied => lines.len() == 2 && lossy_text(dest).is_suffix_of(lines[0])
                    && ("export KUBECONFIG="@ + lossy_text(dest)).is_suffix_of(lines[1]),
                CopyOutcome::WriteFailed { error } => lines.len() == 1 && error@.is_suffix_of(
                    lines[0],
                ),
                CopyOutcome::ReadFailed { error } => lines.len() == 1 && error@.is_suffix_of(
                    lines[0],
                ),
            }
        }),
{
    let lines = copy_texts_of(dest, outcome);
    let shown = lossy_text(dest);
    match outcome {
        CopyOutcome::Copied => {
            reveal_strlit("  export KUBECONFIG=");
            reveal_strlit("export KUBECONFIG=");
            let a = lines[0];
            let b = lines[1];
            let end = "export KUBECONFIG="@ + shown;
            assert(shown =~= a.subrange(a.len() - shown.len(), a.len() as int));
            assert(end =~= b.subrange(b.len() - end.len(), b.len() as int));
        },
        CopyOutcome::WriteFailed { error } => {
            let a = lines[0];
            assert(error@ =~= a.subrange(a.len() - error@.len(), a.len() as int));
        },
        CopyOutcome::ReadFailed { error } => {
            let a = lines[0];
            assert(error@ =~= a.subrange(a.len() - error@.len(), a.len() as int));
        },
    }
}

/// What is told while the control plane is brought up: nothing where all goes
/// well, that the kubeconfig did not come, or why the bootstrap failed.
pub proof fn law_bring_up_lines(
    at: BringUpAt,
    found: bool,
    home: Option<String>,
    fault: Option<String>,
)
    ensures
        ({
            let waited = brings_up(BringUpAt::Awaiting, BringUpEvent::Waited { found, home }).1;
            if found {
                waited.len() == 0
            } else {
                waited.len() == 1 && occurs_in("kubeconfig not found after 120s"@, waited[0])
            }
        }),
        at is Bootstrapping ==> ({
            let over = brings_up(at, BringUpEvent::Bootstrapped { fault }).1;
            match fault {
                None => over.len() == 0,
                Some(e) => over.len() == 2 && e@.is_suffix_of(over[0]),
            }
        }),
{
    reveal_strlit("kubeconfig not found after 120s");
    reveal_strlit("  kubeconfig not found after 120s (k3s may still be starting)");
    crate::text::lemma_occurs_at(
        "kubeconfig not found after 120s"@,
        "  kubeconfig not found after 120s (k3s may still be starting)"@,
        2,
    );
    match fault {
        Some(e) => {
            let t = "Bootstrap failed: "@ + e@;
            assert(e@ =~= t.subrange(t.len() - e@.len(), t.len() as int));
        },
        None => {},
    }
}

/// The kubeconfig is written as soon as it is a file with any contents, and not
/// before.
pub proof fn law_ready(is_file: bool, len: u64)
    ensures
        ready(true, Some(len)) <==> len != 0,
        !ready(false, Some(len)),
        !ready(is_file, None),
{
}

/// The steps of the host, as they are carried out, are the acts that they stand
/// for, with the same values.
pub proof fn law_run_steps(config: VmConfig, pid: i32, steps: Seq<RunStep>, i: int)
    requires
        run_steps_are(steps, run_acts(config, pid)),
        0 <= i < steps.len(),
    ensures
        steps.len() == run_acts(config, pid).len(),
        match steps[i] {
            RunStep::Say { line } => run_acts(config, pid)[i] == RunAct::Say(line@),
            RunStep::Pause { ms } => run_acts(config, pid)[i] == RunAct::Pause(ms),
            RunStep::Forward { api_sock, forward } => run_acts(config, pid)[i] matches
                RunAct::Forward(sock, mapping) && api_sock.bytes@ == sock && forwards(
                forward,
                mapping,
            ),
            RunStep::Bootstrap { kubeconfig } => run_acts(config, pid)[i] == RunAct::Bootstrap(
                kubeconfig.bytes@,
            ),
            RunStep::ForwardSignals => run_acts(config, pid)[i] is ForwardSignals,
            RunStep::AwaitExit => run_acts(config, pid)[i] is AwaitExit,
            RunStep::StopGvproxy => run_acts(config, pid)[i] is StopGvproxy,
        },
{
    assert(run_step_is(steps[i], run_acts(config, pid)[i]));
}

/// A stage of bringing up the control plane is what its values say.
pub proof fn law_bring_up_stages(at: BringUp)
    ensures
        match at {
            BringUp::Awaiting => at@ is Awaiting,
            BringUp::Copying { dir, dest } => at@ == BringUpAt::Copying(dir.bytes@, dest.bytes@),
            BringUp::Bootstrapping { dest } => at@ == BringUpAt::Bootstrapping(dest.bytes@),
            BringUp::Over { up } => at@ == BringUpAt::Over(up),
        },
{
}

} // verus!

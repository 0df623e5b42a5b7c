//! The whole of a microVM's life on the host: its launch, what the host does
//! while it runs, and what comes of it.
//!
//! A session asks for one step at a time. The caller carries the step out and
//! hands back what came of it, to [`reported`] for a step of the launch and to
//! [`followed`] for a step of the running VM, until the session is over.

use super::config::VmConfig;
use super::error::VmError;
use super::exit::{code_of, exit_code, exit_line, line_of};
use super::launch::{
    launch, launch_acts, law_launch_ends, means, step_is, step_outcome, steps_are, Act, LaunchStep,
    StepReport,
};
use super::running::{
    announce_acts, bootstrap_acts, exit_acts, forward_acts, run_acts, run_step_is, run_steps_are,
    running, RunAct, RunStep,
};
use vstd::prelude::*;

verus! {

/// Where a session stands.
#[derive(Debug, PartialEq, Eq)]
pub enum Session {
    /// The launch asks for a step; the others follow it.
    Launching { step: LaunchStep, rest: Vec<LaunchStep> },
    /// The running VM asks for a step; the others follow it. The wait status is
    /// zero until the end of the VM is known.
    Running { task: RunStep, tasks: Vec<RunStep>, status: i32 },
    /// The launch has failed.
    Failed { error: VmError },
    /// The VM has ended; the line tells of it.
    Ended { code: i32, line: Option<String> },
}

/// What came of a step of the running VM.
#[derive(Debug)]
pub enum RunOutcome {
    /// It was done.
    Done,
    /// A port was forwarded, or was not for this reason.
    Forwarded { fault: Option<String> },
    /// The wait for the kubeconfig, its copy and the bootstrap are over; whether
    /// the control plane is up.
    BroughtUp { up: bool },
    /// The VM has ended with this wait status.
    Exited { status: i32 },
}

/// Whether a session has just begun.
pub open spec fn begins(config: VmConfig, s: Session) -> bool {
    s matches Session::Launching { step, rest } && steps_are(
        seq![step] + rest@,
        launch_acts(config),
    )
}

/// The session of a VM.
pub fn begin(config: &VmConfig) -> (r: Session)
    ensures
        begins(*config, r),
{
    let mut rest: Vec<LaunchStep> = launch(config);
    proof {
        law_launch_ends(*config);
    }
    let ghost steps = rest@;
    let step: LaunchStep = rest.remove(0);
    assert(seq![step] + rest@ =~= steps);
    Session::Launching { step, rest }
}

/// Whether `r` is where the report on a step of the launch leads: to the failure
/// of that step, to the next step, or, behind the last one, to the VM that runs
/// as the process `pid`.
pub open spec fn reported_to(
    config: VmConfig,
    step: LaunchStep,
    rest: Seq<LaunchStep>,
    report: StepReport,
    pid: i32,
    r: Session,
) -> bool {
    match r {
        Session::Failed { error } => means(step, report, Err(error)),
        Session::Launching { step: next, rest: others } => means(step, report, Ok(())) && rest.len()
            > 0 && next == rest[0] && others@ == rest.skip(1),
        Session::Running { task: next, tasks: others, status } => means(step, report, Ok(()))
            && rest.len() == 0 && run_steps_are(seq![next] + others@, run_acts(config, pid))
            && status == 0,
        Session::Ended { .. } => false,
    }
}

/// Where the report on a step of the launch leads. `pid` is the process of the
/// VM, once it was forked.
pub fn reported(
    config: &VmConfig,
    step: LaunchStep,
    rest: Vec<LaunchStep>,
    report: StepReport,
    pid: i32,
) -> (r: Session)
    ensures
        reported_to(*config, step, rest@, report, pid, r),
{
    match step_outcome(step, report) {
        Err(error) => Session::Failed { error },
        Ok(()) => {
            let mut rest = rest;
            if rest.len() > 0 {
                let ghost steps = rest@;
                let next: LaunchStep = rest.remove(0);
                assert(rest@ =~= steps.skip(1));
                Session::Launching { step: next, rest }
            } else {
                let mut others: Vec<RunStep> = running(config, pid);
                let ghost steps = others@;
                let next: RunStep = others.remove(0);
                assert(seq![next] + others@ =~= steps);
                Session::Running { task: next, tasks: others, status: 0 }
            }
        },
    }
}

/// The wait status after a step of the running VM: only the wait for the end of
/// the VM changes it.
pub open spec fn status_after(step: RunStep, outcome: RunOutcome, status: i32) -> i32 {
    match (step, outcome) {
        (RunStep::AwaitExit, RunOutcome::Exited { status: new }) => new,
        _ => status,
    }
}

/// Whether `r` is where a step of the running VM leads: to the next step or,
/// behind the last one, to the exit code that the wait status means.
pub open spec fn followed_to(
    step: RunStep,
    rest: Seq<RunStep>,
    status: i32,
    outcome: RunOutcome,
    r: Session,
) -> bool {
    let after = status_after(step, outcome, status);
    match r {
        Session::Running { task: next, tasks: others, status: s } => rest.len() > 0 && next
            == rest[0] && others@ == rest.skip(1) && s == after,
        Session::Ended { code, line } => rest.len() == 0 && code == code_of(after) && (match line {
            Some(l) => line_of(after) == Some(l@),
            None => line_of(after) is None,
        }),
        _ => false,
    }
}

/// Where a step of the running VM leads.
pub fn followed(step: RunStep, rest: Vec<RunStep>, status: i32, outcome: RunOutcome) -> (r: Session)
    ensures
        followed_to(step, rest@, status, outcome, r),
{
    let after: i32 = match (step, outcome) {
        (RunStep::AwaitExit, RunOutcome::Exited { status: new }) => new,
        _ => status,
    };
    let mut rest = rest;
    if rest.len() > 0 {
        let ghost steps = rest@;
        let next: RunStep = rest.remove(0);
        assert(rest@ =~= steps.skip(1));
        Session::Running { task: next, tasks: rest, status: after }
    } else {
        Session::Ended { code: exit_code(after), line: exit_line(after) }
    }
}

// ---------------------------------------------------------------------
// Laws
// ---------------------------------------------------------------------
/// What the caller hands to a session.
pub enum SessionEvent {
    /// The report on a step of the launch, and the process of the VM.
    Reported(StepReport, i32),
    /// What came of a step of the running VM.
    Followed(RunOutcome),
}

/// Whether an event takes a session from one state to another.
pub open spec fn moves(config: VmConfig, s: Session, event: SessionEvent, t: Session) -> bool {
    match (s, event) {
        (Session::Launching { step, rest }, SessionEvent::Reported(report, pid)) => reported_to(
            config,
            step,
            rest@,
            report,
            pid,
            t,
        ),
        (
            Session::Running { task, tasks, status },
            SessionEvent::Followed(outcome),
        ) => followed_to(task, tasks@, status, outcome, t),
        _ => false,
    }
}

/// Whether a session goes through these states, by these events.
pub open spec fn session(config: VmConfig, states: Seq<Session>, events: Seq<SessionEvent>) -> bool {
    &&& states.len() == events.len() + 1
    &&& begins(config, states[0])
    &&& forall|i: int|
        0 <= i < events.len() ==> moves(config, #[trigger] states[i], events[i], states[i + 1])
}

/// Whether the session asked for the launch step with number `i` when it was
/// due, and the report on it meant `r`.
pub open spec fn launch_step_meant(
    config: VmConfig,
    states: Seq<Session>,
    events: Seq<SessionEvent>,
    i: int,
    r: Result<(), VmError>,
) -> bool {
    match (states[i], events[i]) {
        (Session::Launching { step, .. }, SessionEvent::Reported(report, _)) => step_is(
            step,
            launch_acts(config)[i],
        ) && means(step, report, r),
        _ => false,
    }
}

/// The number of steps of a launch.
pub open spec fn launch_len(config: VmConfig) -> int {
    launch_acts(config).len() as int
}

/// The process of the VM in a session that got past the boot.
pub open spec fn booted_as(config: VmConfig, events: Seq<SessionEvent>) -> i32 {
    match events[launch_len(config) - 1] {
        SessionEvent::Reported(_, pid) => pid,
        SessionEvent::Followed(_) => 0,
    }
}

/// What the host does while the VM of a session runs.
pub open spec fn run_of(config: VmConfig, events: Seq<SessionEvent>) -> Seq<RunAct> {
    run_acts(config, booted_as(config, events))
}

/// Whether the session asked for the step with number `j` of the running VM
/// when it was due.
pub open spec fn run_step_taken(
    config: VmConfig,
    states: Seq<Session>,
    events: Seq<SessionEvent>,
    j: int,
) -> bool {
    match (states[launch_len(config) + j], events[launch_len(config) + j]) {
        (Session::Running { task: step, .. }, SessionEvent::Followed(_)) => run_step_is(
            step,
            run_of(config, events)[j],
        ),
        _ => false,
    }
}

/// The number of the wait for the end of the VM among the steps of the running
/// VM.
pub open spec fn wait_at(config: VmConfig) -> int {
    announce_acts(config, 0).len() + forward_acts(config).len() + bootstrap_acts(config).len() + 2int
}

/// The wait status of a session: what the wait for the end of the VM gave, zero
/// where it gave none.
pub open spec fn wait_status(config: VmConfig, events: Seq<SessionEvent>) -> i32 {
    match events[launch_len(config) + wait_at(config)] {
        SessionEvent::Followed(RunOutcome::Exited { status }) => status,
        _ => 0,
    }
}

/// Where a session stands after `i` events.
spec fn stands(config: VmConfig, events: Seq<SessionEvent>, i: int, s: Session) -> bool {
    let n = launch_len(config);
    let acts = run_of(config, events);
    let status = if i - n > wait_at(config) {
        wait_status(config, events)
    } else {
        0
    };
    match s {
        Session::Launching { step, rest } => i < n && steps_are(
            seq![step] + rest@,
            launch_acts(config).skip(i),
        ),
        Session::Running { task, tasks, status: known } => n <= i < n + acts.len()
            && run_steps_are(seq![task] + tasks@, acts.skip(i - n)) && known == status,
        Session::Failed { .. } => 0 < i <= n,
        Session::Ended { code, line } => i == n + acts.len() && code == code_of(status) && (
        match line {
            Some(l) => line_of(status) == Some(l@),
            None => line_of(status) is None,
        }),
    }
}

proof fn lemma_launch_tail(step: LaunchStep, rest: Seq<LaunchStep>, acts: Seq<Act>)
    requires
        steps_are(seq![step] + rest, acts),
    ensures
        step_is(step, acts[0]),
        steps_are(rest, acts.skip(1)),
{
    let steps = seq![step] + rest;
    assert(step_is(steps[0], acts[0]));
    assert forall|i: int| 0 <= i < rest.len() implies step_is(
        #[trigger] rest[i],
        acts.skip(1)[i],
    ) by {
        assert(step_is(steps[i + 1], acts[i + 1]));
    }
}

proof fn lemma_run_tail(step: RunStep, rest: Seq<RunStep>, acts: Seq<RunAct>)
    requires
        run_steps_are(seq![step] + rest, acts),
    ensures
        run_step_is(step, acts[0]),
        run_steps_are(rest, acts.skip(1)),
{
    let steps = seq![step] + rest;
    assert(run_step_is(steps[0], acts[0]));
    assert forall|i: int| 0 <= i < rest.len() implies run_step_is(
        #[trigger] rest[i],
        acts.skip(1)[i],
    ) by {
        assert(run_step_is(steps[i + 1], acts[i + 1]));
    }
}

/// The end of the VM is waited for once.
proof fn lemma_wait_at(config: VmConfig, pid: i32)
    ensures
        0 <= wait_at(config) < run_acts(config, pid).len(),
        forall|j: int|
            0 <= j < run_acts(config, pid).len() ==> (#[trigger] run_acts(config, pid)[j]
                is AwaitExit <==> j == wait_at(config)),
{
    let a = announce_acts(config, pid);
    let b = forward_acts(config);
    let c = bootstrap_acts(config);
    let d = exit_acts(config);
    let all = run_acts(config, pid);
    assert(a.len() == announce_acts(config, 0).len());
    let m = a.len() + b.len() + c.len();
    assert forall|j: int| 0 <= j < all.len() implies (#[trigger] all[j] is AwaitExit <==> j
        == wait_at(config)) by {
        if j < a.len() {
            assert(all[j] == a[j]);
        } else if j < a.len() + b.len() {
            assert(all[j] == b[j - a.len()]);
        } else if j < m {
            assert(all[j] == c[j - a.len() - b.len()]);
        } else {
            assert(all[j] == d[j - m]);
        }
    }
}

proof fn lemma_moves(
    config: VmConfig,
    events: Seq<SessionEvent>,
    i: int,
    s: Session,
    t: Session,
)
    requires
        0 <= i < events.len(),
        stands(config, events, i, s),
        moves(config, s, events[i], t),
    ensures
        stands(config, events, i + 1, t),
        match s {
            Session::Launching { step, .. } => i < launch_len(config) && events[i] is Reported
                && step_is(step, launch_acts(config)[i]),
            Session::Running { task: step, .. } => i >= launch_len(config) && events[i] is Followed
                && run_step_is(step, run_of(config, events)[i - launch_len(config)]),
            _ => false,
        },
{
    let n = launch_len(config);
    match s {
        Session::Launching { step, rest } => {
            let acts = launch_acts(config).skip(i);
            lemma_launch_tail(step, rest@, acts);
            assert(acts.skip(1) =~= launch_acts(config).skip(i + 1));
            match t {
                Session::Launching { step: next, rest: others } => {
                    assert(seq![next] + others@ =~= rest@);
                },
                Session::Running { task: next, tasks: others, status } => {
                    assert(i + 1 == n);
                    lemma_wait_at(config, booted_as(config, events));
                    assert(run_of(config, events).skip(0) =~= run_of(config, events));
                },
                _ => {},
            }
        },
        Session::Running { task: step, tasks: rest, status } => {
            let acts = run_of(config, events).skip(i - n);
            lemma_run_tail(step, rest@, acts);
            lemma_wait_at(config, booted_as(config, events));
            assert(acts[0] == run_of(config, events)[i - n]);
            assert(acts.skip(1) =~= run_of(config, events).skip(i + 1 - n));
            match t {
                Session::Running { task: next, tasks: others, .. } => {
                    assert(seq![next] + others@ =~= rest@);
                },
                _ => {},
            }
        },
        _ => {},
    }
}

proof fn lemma_stands(
    config: VmConfig,
    states: Seq<Session>,
    events: Seq<SessionEvent>,
    i: int,
)
    requires
        session(config, states, events),
        0 <= i < states.len(),
    ensures
        stands(config, events, i, states[i]),
    decreases i,
{
    if i == 0 {
        law_launch_ends(config);
        assert(launch_acts(config).skip(0) =~= launch_acts(config));
    } else {
        lemma_stands(config, states, events, i - 1);
        assert(moves(config, states[i - 1], events[i - 1], states[i - 1 + 1]));
        lemma_moves(config, events, i - 1, states[i - 1], states[i]);
    }
}

/// Before the last event a session is not over, and what it asks for is the
/// step that is due.
proof fn lemma_step_due(
    config: VmConfig,
    states: Seq<Session>,
    events: Seq<SessionEvent>,
    i: int,
)
    requires
        session(config, states, events),
        0 <= i < events.len(),
    ensures
        i < launch_len(config) ==> launch_step_meant(
            config,
            states,
            events,
            i,
            match states[i + 1] {
                Session::Failed { error } => Err(error),
                _ => Ok(()),
            },
        ),
        i >= launch_len(config) ==> run_step_taken(
            config,
            states,
            events,
            i - launch_len(config),
        ),
        states[i + 1] is Failed ==> i < launch_len(config),
{
    lemma_stands(config, states, events, i);
    assert(moves(config, states[i], events[i], states[i + 1]));
    lemma_moves(config, events, i, states[i], states[i + 1]);
    lemma_stands(config, states, events, i + 1);
}

/// The first step of a launch that fails ends the session, and its error is the
/// result: every step before it was done, none is asked for behind it, and
/// nothing that follows the boot makes a session fail.
pub proof fn law_first_failure_is_the_result(
    config: VmConfig,
    states: Seq<Session>,
    events: Seq<SessionEvent>,
    error: VmError,
)
    requires
        session(config, states, events),
        states.last() == (Session::Failed { error }),
    ensures
        0 < events.len() <= launch_len(config),
        forall|i: int|
            0 <= i < events.len() - 1 ==> #[trigger] launch_step_meant(
                config,
                states,
                events,
                i,
                Ok(()),
            ),
        launch_step_meant(config, states, events, events.len() - 1, Err(error)),
{
    lemma_stands(config, states, events, events.len() as int);
    assert forall|i: int| 0 <= i < events.len() - 1 implies #[trigger] launch_step_meant(
        config,
        states,
        events,
        i,
        Ok(()),
    ) by {
        lemma_step_due(config, states, events, i);
        assert(moves(config, states[i + 1], events[i + 1], states[i + 2]));
    }
    lemma_step_due(config, states, events, events.len() - 1);
}

/// Without a failure in the launch, the result is the exit code that the wait
/// status means: every step of the launch was done, the last of them the boot,
/// the host took every step of the running VM in its order, and the code and
/// the line that tells of it come from the wait for the end of the VM.
pub proof fn law_wait_status_is_the_result(
    config: VmConfig,
    states: Seq<Session>,
    events: Seq<SessionEvent>,
    code: i32,
    line: Option<String>,
)
    requires
        session(config, states, events),
        states.last() == (Session::Ended { code, line }),
    ensures
        launch_acts(config).last() is Boot,
        forall|i: int|
            0 <= i < launch_len(config) ==> #[trigger] launch_step_meant(
                config,
                states,
                events,
                i,
                Ok(()),
            ),
        events.len() == launch_len(config) + run_of(config, events).len(),
        forall|j: int|
            0 <= j < run_of(config, events).len() ==> #[trigger] run_step_taken(
                config,
                states,
                events,
                j,
            ),
        run_of(config, events)[wait_at(config)] is AwaitExit,
        code == code_of(wait_status(config, events)),
        match line {
            Some(l) => line_of(wait_status(config, events)) == Some(l@),
            None => line_of(wait_status(config, events)) is None,
        },
{
    let n = launch_len(config);
    lemma_stands(config, states, events, events.len() as int);
    lemma_wait_at(config, booted_as(config, events));
    assert forall|i: int| 0 <= i < n implies #[trigger] launch_step_meant(
        config,
        states,
        events,
        i,
        Ok(()),
    ) by {
        lemma_step_due(config, states, events, i);
        assert(moves(config, states[i + 1], events[i + 1], states[i + 2]));
    }
    assert forall|j: int| 0 <= j < run_of(config, events).len() implies #[trigger] run_step_taken(
        config,
        states,
        events,
        j,
    ) by {
        lemma_step_due(config, states, events, n + j);
    }
    law_launch_ends(config);
    assert(launch_step_meant(config, states, events, n - 1, Ok(())));
}

/// Nothing but the wait for the end of the VM has a say in the result of a VM
/// that was booted: two sessions with the same wait status end with the same
/// code and the same line, whatever came in either of the wait for the
/// kubeconfig, its copy, the port forwardings and the bootstrap.
pub proof fn law_only_the_wait_decides(
    config: VmConfig,
    states: Seq<Session>,
    events: Seq<SessionEvent>,
    other_states: Seq<Session>,
    other_events: Seq<SessionEvent>,
)
    requires
        session(config, states, events),
        session(config, other_states, other_events),
        states.last() is Ended,
        other_states.last() is Ended,
        wait_status(config, events) == wait_status(config, other_events),
    ensures
        states.last()->code == other_states.last()->code,
        match (states.last()->line, other_states.last()->line) {
            (Some(a), Some(b)) => a@ == b@,
            (None, None) => true,
            _ => false,
        },
{
    let s = states.last();
    let t = other_states.last();
    law_wait_status_is_the_result(config, states, events, s->code, s->line);
    law_wait_status_is_the_result(config, other_states, other_events, t->code, t->line);
}

/// Every session comes to its end: one that is not over has steps before it, of
/// the launch or of the running VM, and there is a fixed number of each.
pub proof fn law_session_ends(
    config: VmConfig,
    states: Seq<Session>,
    events: Seq<SessionEvent>,
)
    requires
        session(config, states, events),
    ensures
        match states.last() {
            Session::Launching { .. } => events.len() < launch_len(config),
            Session::Running { .. } => launch_len(config) <= events.len() < launch_len(config)
                + run_of(config, events).len(),
            Session::Failed { .. } => events.len() <= launch_len(config),
            Session::Ended { .. } => events.len() == launch_len(config) + run_of(
                config,
                events,
            ).len(),
        },
{
    lemma_stands(config, states, events, events.len() as int);
}

} // verus!

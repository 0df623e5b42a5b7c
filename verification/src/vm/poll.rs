//! Waiting for something on the host by looking for it again and again.

use vstd::prelude::*;

verus! {

/// How to wait.
#[derive(Debug, Clone, Copy, PartialEq, Eq, Structural)]
pub struct PollRule {
    /// How often to look, with a pause after each look in vain.
    pub limit: u32,
    /// The pause, in milliseconds.
    pub pause_ms: u64,
    /// Whether to look once more after the last pause.
    pub last_look: bool,
}

/// What a look leads to.
#[derive(Debug, Clone, Copy, PartialEq, Eq, Structural)]
pub enum PollStep {
    /// It is there.
    Ready,
    /// Pause, and go on; so many looks were made.
    Wait { looks: u32 },
    /// It has not come.
    GiveUp,
}

impl PollRule {
    /// For the socket of gvproxy: five seconds.
    pub fn gvproxy_socket() -> (r: PollRule)
        ensures
            r == (PollRule { limit: 50, pause_ms: 100, last_look: true }),
    {
        PollRule { limit: 50, pause_ms: 100, last_look: true }
    }

    /// For the kubeconfig of the guest: two minutes.
    pub fn kubeconfig() -> (r: PollRule)
        ensures
            r == (PollRule { limit: 120, pause_ms: 1000, last_look: false }),
    {
        PollRule { limit: 120, pause_ms: 1000, last_look: false }
    }

    /// For the namespace of the control plane: four minutes.
    pub fn namespace() -> (r: PollRule)
        ensures
            r == (PollRule { limit: 120, pause_ms: 2000, last_look: false }),
    {
        PollRule { limit: 120, pause_ms: 2000, last_look: false }
    }

    /// Whether there is another look after so many.
    pub open spec fn may_look(self, looks: int) -> bool {
        looks < self.limit || (self.last_look && looks == self.limit)
    }

    /// Whether there is another look after so many.
    pub fn goes_on(&self, looks: u32) -> (r: bool)
        ensures
            r == self.may_look(looks as int),
    {
        looks < self.limit || (self.last_look && looks == self.limit)
    }

    /// What a look leads to, after `looks` others.
    pub fn look(&self, looks: u32, ready: bool) -> (r: PollStep)
        ensures
            r == (if ready {
                PollStep::Ready
            } else if looks < self.limit {
                PollStep::Wait { looks: (looks + 1) as u32 }
            } else {
                PollStep::GiveUp
            }),
    {
        if ready {
            PollStep::Ready
        } else if looks < self.limit {
            PollStep::Wait { looks: looks + 1 }
        } else {
            PollStep::GiveUp
        }
    }
}

/// A wait ends: there are at most as many looks as the rule says, and one more
/// where it asks for a last one.
pub proof fn law_poll_ends(rule: PollRule, looks: int)
    requires
        looks > rule.limit + (if rule.last_look {
            1int
        } else {
            0
        }) - 1,
    ensures
        !rule.may_look(looks),
{
}

} // verus!

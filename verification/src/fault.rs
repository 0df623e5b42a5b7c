//! Failures of file and process operations, as values.

use vstd::prelude::*;

verus! {

/// What kind of failure it is.
#[derive(Debug, Clone, Copy, PartialEq, Eq, Structural)]
pub enum FaultKind {
    /// Something that is needed is not there.
    NotFound,
    /// Data is not what it should be.
    InvalidData,
    /// Any other failure.
    Other,
}

/// A failure and its text.
#[derive(Debug, PartialEq, Eq)]
pub struct Fault {
    pub kind: FaultKind,
    pub message: String,
}

/// Whether a failure has the given kind and text.
pub open spec fn fault_is(fault: Fault, kind: FaultKind, message: Seq<char>) -> bool {
    fault.kind == kind && fault.message@ == message
}

/// A failure with a kind and a text has just these.
pub proof fn law_fault(fault: Fault, kind: FaultKind, message: Seq<char>)
    ensures
        fault_is(fault, kind, message) <==> fault.kind == kind && fault.message@ == message,
{
}

} // verus!

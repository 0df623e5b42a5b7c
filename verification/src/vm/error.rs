//! Errors of microVMs.

use crate::text::{
    concat, concat3, decimal, decimal_text, lemma_occurs, occurs_in, signed_decimal, signed_text,
};
use vstd::prelude::*;

verus! {

/// Why a microVM could not be configured or launched.
#[derive(Debug, PartialEq, Eq)]
pub enum VmError {
    /// A libkrun call returned a negative error code.
    Krun { func: &'static str, code: i32 },
    /// The root file system directory does not exist.
    RootfsNotFound { path: String },
    /// A path is not valid UTF-8.
    InvalidPath(String),
    /// A text holds a NUL byte at this position.
    CString { position: usize },
    /// A binary that is needed on the host was not found.
    BinaryNotFound { path: String, hint: String },
    /// A process could not be started.
    Fork(String),
    /// What follows the boot failed.
    Bootstrap(String),
}

impl VmError {
    /// The error as text.
    pub open spec fn text(self) -> Seq<char> {
        match self {
            VmError::Krun { func, code } => func@ + " failed with error code "@ + signed_decimal(
                code as int,
            ),
            VmError::RootfsNotFound { path } => "rootfs directory not found: "@ + path@
                + "\nRun: ./crates/openshell-vm/scripts/build-rootfs.sh"@,
            VmError::InvalidPath(path) => "path is not valid UTF-8: "@ + path@,
            VmError::CString { position } =>
                "invalid C string: nul byte found in provided data at position: "@ + decimal(
                position as nat,
            ),
            VmError::BinaryNotFound { path, hint } => "required binary not found: "@ + path@
                + "\n"@ + hint@,
            VmError::Fork(e) => "fork() failed: "@ + e@,
            VmError::Bootstrap(e) => "bootstrap failed: "@ + e@,
        }
    }

    /// The error as text.
    pub fn message(&self) -> (r: String)
        ensures
            r@ == self.text(),
    {
        match self {
            VmError::Krun { func, code } => concat3(
                func,
                " failed with error code ",
                signed_text(*code).as_str(),
            ),
            VmError::RootfsNotFound { path } => concat3(
                "rootfs directory not found: ",
                path.as_str(),
                "\nRun: ./crates/openshell-vm/scripts/build-rootfs.sh",
            ),
            VmError::InvalidPath(path) => concat("path is not valid UTF-8: ", path.as_str()),
            VmError::CString { position } => concat(
                "invalid C string: nul byte found in provided data at position: ",
                decimal_text(*position as u64).as_str(),
            ),
            VmError::BinaryNotFound { path, hint } => {
                let mut r: String = concat3("required binary not found: ", path.as_str(), "\n");
                r.append(hint.as_str());
                r
            },
            VmError::Fork(e) => concat("fork() failed: ", e.as_str()),
            VmError::Bootstrap(e) => concat("bootstrap failed: ", e.as_str()),
        }
    }
}

/// Checks the return code of a libkrun call; negative values are errors.
pub fn check(ret: i32, func: &'static str) -> (r: Result<(), VmError>)
    ensures
        r == (if ret < 0 {
            Err::<(), VmError>(VmError::Krun { func, code: ret })
        } else {
            Ok(())
        }),
{
    if ret < 0 {
        Err(VmError::Krun { func, code: ret })
    } else {
        Ok(())
    }
}

/// The text in an error that carries one.
pub open spec fn bootstrap_error(e: VmError, text: Seq<char>) -> bool {
    e matches VmError::Bootstrap(t) && t@ == text
}

/// Whether an error is one of starting a process, with the given text.
pub open spec fn fork_error(e: VmError, text: Seq<char>) -> bool {
    e matches VmError::Fork(t) && t@ == text
}

/// The text of an error holds all that the error knows: the libkrun function
/// and its code, the path, the position, the hint or the reason.
pub proof fn law_error_texts(e: VmError)
    ensures
        match e {
            VmError::Krun { func, code } => func@.is_prefix_of(e.text()) && signed_decimal(
                code as int,
            ).is_suffix_of(e.text()),
            VmError::RootfsNotFound { path } => occurs_in(path@, e.text()),
            VmError::InvalidPath(path) => path@.is_suffix_of(e.text()),
            VmError::CString { position } => decimal(position as nat).is_suffix_of(e.text()),
            VmError::BinaryNotFound { path, hint } => occurs_in(path@, e.text())
                && hint@.is_suffix_of(e.text()),
            VmError::Fork(reason) => reason@.is_suffix_of(e.text()),
            VmError::Bootstrap(reason) => reason@.is_suffix_of(e.text()),
        },
{
    let t = e.text();
    match e {
        VmError::Krun { func, code } => {
            let end = signed_decimal(code as int);
            assert(func@ =~= t.subrange(0, func@.len() as int));
            assert(end =~= t.subrange(t.len() - end.len(), t.len() as int));
        },
        VmError::RootfsNotFound { path } => {
            lemma_occurs(
                "rootfs directory not found: "@,
                path@,
                "\nRun: ./crates/openshell-vm/scripts/build-rootfs.sh"@,
            );
        },
        VmError::InvalidPath(path) => {
            assert(path@ =~= t.subrange(t.len() - path@.len(), t.len() as int));
        },
        VmError::CString { position } => {
            let end = decimal(position as nat);
            assert(end =~= t.subrange(t.len() - end.len(), t.len() as int));
        },
        VmError::BinaryNotFound { path, hint } => {
            assert(t =~= "required binary not found: "@ + path@ + ("\n"@ + hint@));
            lemma_occurs("required binary not found: "@, path@, "\n"@ + hint@);
            assert(hint@ =~= t.subrange(t.len() - hint@.len(), t.len() as int));
        },
        VmError::Fork(reason) => {
            assert(reason@ =~= t.subrange(t.len() - reason@.len(), t.len() as int));
        },
        VmError::Bootstrap(reason) => {
            assert(reason@ =~= t.subrange(t.len() - reason@.len(), t.len() as int));
        },
    }
}

/// An error of the bootstrap or of starting a process carries its text.
pub proof fn law_error_reasons(e: VmError, text: Seq<char>)
    ensures
        bootstrap_error(e, text) <==> (e matches VmError::Bootstrap(t) && t@ == text),
        fork_error(e, text) <==> (e matches VmError::Fork(t) && t@ == text),
        bootstrap_error(e, text) ==> text.is_suffix_of(e.text()),
        fork_error(e, text) ==> text.is_suffix_of(e.text()),
{
    law_error_texts(e);
}

} // verus!

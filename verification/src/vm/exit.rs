//! The exit code of a microVM.

use crate::text::{concat, signed_decimal, signed_text};
use vstd::prelude::*;

verus! {

/// The low seven bits of a wait status: zero where the process ended by itself,
/// else the signal that ended or stopped it.
pub open spec fn status_signal(status: i32) -> i32 {
    status & 0x7f
}

/// Whether a process ended by itself, by `libc::WIFEXITED`: the low seven bits
/// of its wait status are zero.
#[verifier::external_body]
fn exited(status: i32) -> (r: bool)
    ensures
        r == (status_signal(status) == 0),
{
    libc::WIFEXITED(status)
}

/// The code with which a process ended, by `libc::WEXITSTATUS`: bits 8 to 15 of
/// its wait status.
#[verifier::external_body]
fn exit_status(status: i32) -> (r: i32)
    ensures
        r == (status >> 8) & 0xff,
{
    libc::WEXITSTATUS(status)
}

/// Whether a signal ended a process, by `libc::WIFSIGNALED`: the low seven bits
/// of its wait status are neither all zero nor all one.
#[verifier::external_body]
fn signaled(status: i32) -> (r: bool)
    ensures
        r == (status_signal(status) != 0 && status_signal(status) != 0x7f),
{
    libc::WIFSIGNALED(status)
}

/// The signal that ended a process, by `libc::WTERMSIG`: the low seven bits of
/// its wait status.
#[verifier::external_body]
fn term_signal(status: i32) -> (r: i32)
    ensures
        r == status_signal(status),
{
    libc::WTERMSIG(status)
}

/// The exit code that a wait status means: the code of a process that ended by
/// itself, 128 and the signal for one that a signal ended, else the status.
pub open spec fn code_of(status: i32) -> int {
    let signal = status_signal(status);
    if signal == 0 {
        ((status >> 8) & 0xff) as int
    } else if signal != 0x7f {
        128 + signal
    } else {
        status as int
    }
}

/// The exit code that a wait status means.
pub fn exit_code(status: i32) -> (r: i32)
    ensures
        r == code_of(status),
{
    assert(0 <= (status & 0x7f) <= 0x7f) by (bit_vector);
    if exited(status) {
        exit_status(status)
    } else if signaled(status) {
        128 + term_signal(status)
    } else {
        status
    }
}

/// What the user is told of a wait status: nothing of one that is not an end.
pub open spec fn line_of(status: i32) -> Option<Seq<char>> {
    let signal = status_signal(status);
    if signal == 0 {
        Some("VM exited with code "@ + signed_decimal(code_of(status)))
    } else if signal != 0x7f {
        Some("VM killed by signal "@ + signed_decimal(signal as int))
    } else {
        None
    }
}

/// What the user is told of a wait status: nothing of one that is not an end.
pub fn exit_line(status: i32) -> (r: Option<String>)
    ensures
        match r {
            Some(line) => line_of(status) == Some(line@),
            None => line_of(status) is None,
        },
{
    if exited(status) {
        Some(concat("VM exited with code ", signed_text(exit_status(status)).as_str()))
    } else if signaled(status) {
        Some(concat("VM killed by signal ", signed_text(term_signal(status)).as_str()))
    } else {
        None
    }
}

/// A process that ended by itself has a code from 0 to 255, and one that a
/// signal ended has a code above 128: the two overlap only where a process
/// itself ends with such a code.
pub proof fn law_exit_code_range(status: i32)
    ensures
        status_signal(status) == 0 ==> 0 <= code_of(status) <= 255,
        status_signal(status) != 0 && status_signal(status) != 0x7f ==> 128 < code_of(status)
            < 255,
{
    assert(0 <= (status & 0x7f) <= 0x7f) by (bit_vector);
    assert(0 <= ((status >> 8) & 0xff) <= 0xff) by (bit_vector);
}

/// What a wait status means, built the way the kernel builds it: a process that
/// ended with a code has that code, and one that a signal ended has 128 and the
/// signal, whether or not it left a core dump.
pub proof fn law_exit_codes(code: u8, signal: u8)
    requires
        0 < signal < 0x7f,
    ensures
        code_of((code as i32) << 8) == code,
        code_of(signal as i32) == 128 + signal,
        code_of(signal as i32 | 0x80) == 128 + signal,
        line_of((code as i32) << 8) == Some(
            "VM exited with code "@ + signed_decimal(code as int),
        ),
        line_of(signal as i32) == Some("VM killed by signal "@ + signed_decimal(signal as int)),
{
    let c = code as i32;
    let s = signal as i32;
    assert(0 <= c <= 255 ==> (c << 8) & 0x7f == 0 && ((c << 8) >> 8) & 0xff == c) by (bit_vector);
    assert(0 < s < 0x7f ==> s & 0x7f == s && (s | 0x80) & 0x7f == s) by (bit_vector);
}

} // verus!

//! The operating-system calls the shell core relies on, each behind one
//! trusted wrapper. File descriptors, process ids and signal numbers cross
//! these boundaries as plain integers.

use vstd::prelude::*;
use nix::sys::wait::{waitpid, WaitPidFlag, WaitStatus};

verus! {

/// How a waited-on child process changed state.
#[derive(Debug, Clone, Copy, PartialEq, Eq, Structural)]
pub enum WaitOutcome {
    /// Exited normally with the given code.
    Exited(i32, i32),
    /// Killed by the given signal; the flag tells whether a core was dumped.
    Signaled(i32, i32, bool),
    /// Stopped by the given signal.
    Stopped(i32, i32),
    /// Resumed after a stop.
    Continued(i32),
    /// Nothing to report yet.
    StillAlive,
    /// A state change this shell does not handle.
    Other,
    /// The wait call itself failed.
    Failed,
}

/// Relies on nix::sys::wait::waitpid with WUNTRACED | WCONTINUED: blocks
/// until the child exits, is killed, stops or resumes; exit codes are the
/// low eight bits, signal numbers are positive. Without WNOHANG the call
/// never reports a still-running child.
#[verifier::external_body]
pub fn wait_job_control(pid: i32) -> (r: WaitOutcome)
    ensures
        !(r is StillAlive),
        r is Exited ==> 0 <= r->Exited_1 <= 255,
        r is Signaled ==> r->Signaled_1 >= 1,
        r is Stopped ==> r->Stopped_1 >= 1,
{
    match waitpid(
        nix::unistd::Pid::from_raw(pid),
        Some(WaitPidFlag::WUNTRACED | WaitPidFlag::WCONTINUED),
    ) {
        Ok(WaitStatus::Exited(p, s)) => WaitOutcome::Exited(p.as_raw(), s),
        Ok(WaitStatus::Signaled(p, sig, core)) => WaitOutcome::Signaled(p.as_raw(), sig as i32, core),
        Ok(WaitStatus::Stopped(p, sig)) => WaitOutcome::Stopped(p.as_raw(), sig as i32),
        Ok(WaitStatus::Continued(p)) => WaitOutcome::Continued(p.as_raw()),
        Ok(WaitStatus::StillAlive) => WaitOutcome::StillAlive,
        Ok(_) => WaitOutcome::Other,
        Err(_) => WaitOutcome::Failed,
    }
}

/// Relies on nix::sys::wait::waitpid with no flags: blocks until the child
/// exits or is killed; exit codes are the low eight bits.
#[verifier::external_body]
pub fn wait_plain(pid: i32) -> (r: WaitOutcome)
    ensures
        !(r is StillAlive),
        r is Exited ==> 0 <= r->Exited_1 <= 255,
        r is Signaled ==> r->Signaled_1 >= 1,
        r is Stopped ==> r->Stopped_1 >= 1,
{
    match waitpid(nix::unistd::Pid::from_raw(pid), None) {
        Ok(WaitStatus::Exited(p, s)) => WaitOutcome::Exited(p.as_raw(), s),
        Ok(WaitStatus::Signaled(p, sig, core)) => WaitOutcome::Signaled(p.as_raw(), sig as i32, core),
        Ok(WaitStatus::Stopped(p, sig)) => WaitOutcome::Stopped(p.as_raw(), sig as i32),
        Ok(WaitStatus::Continued(p)) => WaitOutcome::Continued(p.as_raw()),
        Ok(WaitStatus::StillAlive) => WaitOutcome::StillAlive,
        Ok(_) => WaitOutcome::Other,
        Err(_) => WaitOutcome::Failed,
    }
}

/// Relies on nix::sys::wait::waitpid with WNOHANG: reports at once, saying
/// StillAlive when the child has not changed state yet.
#[verifier::external_body]
pub fn wait_nohang(pid: i32) -> (r: WaitOutcome)
    ensures
        r is Exited ==> 0 <= r->Exited_1 <= 255,
        r is Signaled ==> r->Signaled_1 >= 1,
        r is Stopped ==> r->Stopped_1 >= 1,
{
    match waitpid(nix::unistd::Pid::from_raw(pid), Some(WaitPidFlag::WNOHANG)) {
        Ok(WaitStatus::Exited(p, s)) => WaitOutcome::Exited(p.as_raw(), s),
        Ok(WaitStatus::Signaled(p, sig, core)) => WaitOutcome::Signaled(p.as_raw(), sig as i32, core),
        Ok(WaitStatus::Stopped(p, sig)) => WaitOutcome::Stopped(p.as_raw(), sig as i32),
        Ok(WaitStatus::Continued(p)) => WaitOutcome::Continued(p.as_raw()),
        Ok(WaitStatus::StillAlive) => WaitOutcome::StillAlive,
        Ok(_) => WaitOutcome::Other,
        Err(_) => WaitOutcome::Failed,
    }
}

/// Relies on nix::unistd::pipe: on success two fresh, distinct, nonnegative
/// descriptors, the read end first.
#[verifier::external_body]
pub fn sys_pipe() -> (r: Option<(i32, i32)>)
    ensures
        r is Some ==> (r->0).0 >= 0 && (r->0).1 >= 0 && (r->0).0 != (r->0).1,
{
    match nix::unistd::pipe() {
        Ok(pair) => Some(pair),
        Err(_) => None,
    }
}

/// Relies on nix::unistd::close: gives the descriptor back to the kernel.
#[verifier::external_body]
pub fn sys_close(fd: i32) -> (r: bool) {
    nix::unistd::close(fd).is_ok()
}

/// Relies on nix::unistd::getpid, which cannot fail.
#[verifier::external_body]
pub fn sys_getpid() -> (r: i32) {
    nix::unistd::getpid().as_raw()
}

/// Relies on nix::time::clock_gettime(CLOCK_MONOTONIC): seconds and
/// nanoseconds, the nanoseconds within [0, 1e9).
#[verifier::external_body]
pub fn clock_monotonic() -> (r: Option<(i64, i64)>)
    ensures
        r is Some ==> 0 <= (r->0).1 < 1_000_000_000,
{
    match nix::time::clock_gettime(nix::time::ClockId::CLOCK_MONOTONIC) {
        Ok(t) => Some((t.tv_sec(), t.tv_nsec())),
        Err(_) => None,
    }
}

/// Relies on nix::time::clock_gettime(CLOCK_REALTIME): seconds and
/// nanoseconds since the epoch, the nanoseconds within [0, 1e9).
#[verifier::external_body]
pub fn clock_realtime() -> (r: Option<(i64, i64)>)
    ensures
        r is Some ==> 0 <= (r->0).1 < 1_000_000_000,
{
    match nix::time::clock_gettime(nix::time::ClockId::CLOCK_REALTIME) {
        Ok(t) => Some((t.tv_sec(), t.tv_nsec())),
        Err(_) => None,
    }
}

} // verus!

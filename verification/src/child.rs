//! Waiting on child processes: turning wait outcomes into shell exit
//! codes, and collecting a whole pipeline's codes in launch order.

use vstd::prelude::*;
use crate::database::DataBase;
use crate::pipeline;
use crate::sys::{self, WaitOutcome};
use crate::variable::Value;

verus! {

/// The shell exit code for one wait outcome: the child's own code, 128
/// plus the signal for a killed child, 148 for a stopped one, 1 for
/// anything else the shell does not handle.
pub open spec fn spec_wait_exit_code(w: WaitOutcome) -> int {
    match w {
        WaitOutcome::Exited(_, s) => s as int,
        WaitOutcome::Signaled(_, sig, _) => if sig <= 127 {
            128 + sig
        } else {
            255
        },
        WaitOutcome::Stopped(_, _) => 148,
        WaitOutcome::Continued(_) => 1,
        WaitOutcome::StillAlive => 1,
        WaitOutcome::Other => 1,
        WaitOutcome::Failed => 1,
    }
}

/// Maps a wait outcome to its exit code; `None` when the wait call itself
/// failed, which the caller treats as an internal error.
pub fn wait_exit_code(w: &WaitOutcome) -> (r: Option<i32>)
    ensures
        *w is Failed <==> r is None,
        r matches Some(c) ==> c == spec_wait_exit_code(*w),
{
    match w {
        WaitOutcome::Exited(_, s) => Some(*s),
        WaitOutcome::Signaled(_, sig, _) => {
            if *sig <= 127 {
                Some(128 + *sig)
            } else {
                Some(255)
            }
        },
        WaitOutcome::Stopped(_, _) => Some(148),
        WaitOutcome::Continued(_) => Some(1),
        WaitOutcome::StillAlive => Some(1),
        WaitOutcome::Other => Some(1),
        WaitOutcome::Failed => None,
    }
}

/// Waits for one child and records its exit code as `$?`; a code of 130
/// — the SIGINT convention — also raises the shell's interrupt flag,
/// which the dispatcher's check consumes and never clears here. With job
/// control the wait also reports stopped and resumed children. `None`
/// means the wait call itself failed: an internal error for the caller
/// to abort on; the database and the flag are then left untouched.
pub fn wait_process(db: &mut DataBase, pid: i32, job_control: bool, sigint: &mut bool) -> (r:
    Option<i32>)
    requires
        old(db).wf(),
    ensures
        final(db).wf(),
        r matches Some(c) ==> final(db).exit_status == c && 0 <= c <= 255 && *final(sigint) == (
        *old(sigint) || c == 130),
        r is None ==> *final(db) == *old(db) && *final(sigint) == *old(sigint),
        final(db).layers() == old(db).layers(),
        final(db).num_layers() == old(db).num_layers(),
        final(db).position_parameters == old(db).position_parameters,
        final(db).alias_list() == old(db).alias_list(),
{
    let ws = if job_control {
        sys::wait_job_control(pid)
    } else {
        sys::wait_plain(pid)
    };
    match wait_exit_code(&ws) {
        Some(code) => {
            db.exit_status = code;
            if code == 130 {
                *sigint = true;
            }
            Some(code)
        },
        None => None,
    }
}

/// Waits for every stage of a pipeline in launch order, stores the codes
/// as `PIPESTATUS`, and aggregates `$?` under the pipefail and `!` rules.
/// `None` reports a failed wait call: an internal error.
pub fn wait_pipeline(
    db: &mut DataBase,
    pids: &Vec<i32>,
    exclamation: bool,
    pipefail: bool,
    job_control: bool,
    sigint: &mut bool,
) -> (r: Option<Vec<i32>>)
    requires
        old(db).wf(),
    ensures
        final(db).wf(),
        r matches Some(codes) ==> {
            &&& codes@.len() == pids@.len()
            &&& (forall|i: int| 0 <= i < codes@.len() ==> 0 <= #[trigger] codes@[i] <= 255)
            &&& final(db).exit_status == pipeline::spec_pipeline_final(
                codes@,
                pipefail,
                exclamation,
            )
            &&& (!old(db).readonly("PIPESTATUS"@) && (old(db).has_name("PIPESTATUS"@) ==> old(db).top_layer_of("PIPESTATUS"@) == 0) ==> (final(db).lookup("PIPESTATUS"@)
                matches Some(v) && (v.value matches Value::Array(ad) && ad.data@.map_values(
                |s: String| s@,
            ) == codes@.map_values(|c: i32| crate::text::spec_int_string(c as int)))))
            &&& *final(sigint) == (*old(sigint) || codes@.contains(130i32))
        },
        *old(sigint) ==> *final(sigint),
        final(db).num_layers() == old(db).num_layers(),
        final(db).position_parameters == old(db).position_parameters,
        final(db).alias_list() == old(db).alias_list(),
{
    let n = pids.len();
    let mut codes: Vec<i32> = Vec::new();
    let mut i: usize = 0;
    while i < n
        invariant
            i <= n,
            n == pids@.len(),
            codes@.len() == i,
            forall|j: int| 0 <= j < i ==> 0 <= #[trigger] codes@[j] <= 255,
            db.wf(),
            db.layers() == old(db).layers(),
            db.num_layers() == old(db).num_layers(),
            db.position_parameters == old(db).position_parameters,
            db.alias_list() == old(db).alias_list(),
            *sigint == (*old(sigint) || codes@.contains(130i32)),
        decreases n - i,
    {
        let ghost before = codes@;
        match wait_process(db, pids[i], job_control, sigint) {
            Some(code) => {
                codes.push(code);
                proof {
                    assert(codes@.contains(130i32) == (before.contains(130i32) || code == 130))
                        by {
                        if before.contains(130i32) {
                            let w = choose|w: int| 0 <= w < before.len() && before[w] == 130i32;
                            assert(codes@[w] == 130i32);
                        }
                        if code == 130 {
                            assert(codes@.last() == 130i32);
                        }
                        if codes@.contains(130i32) && !before.contains(130i32) && code != 130 {
                            let w = choose|w: int|
                                0 <= w < codes@.len() && codes@[w] == 130i32;
                            assert(w < before.len() ==> before[w] == 130i32);
                            assert(false);
                        }
                    }
                }
            },
            None => {
                return None;
            },
        }
        i += 1;
    }
    proof {
        crate::database::lemma_readonly_same_layers(*old(db), *db, "PIPESTATUS"@);
        crate::database::lemma_solve_layers_eq(*db, *old(db), "PIPESTATUS"@, db.num_layers() - 1);
    }
    pipeline::apply_pipeline_status(db, &codes, pipefail, exclamation);
    Some(codes)
}

} // verus!

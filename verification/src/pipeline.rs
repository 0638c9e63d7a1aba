//! Pipeline plumbing: which descriptor each stage gets, which descriptors
//! the parent must close after each spawn, and how the per-stage exit codes
//! turn into `PIPESTATUS` and `$?`.

use vstd::prelude::*;
use vstd::multiset::Multiset;
use crate::database::DataBase;

use crate::sys;
use crate::text;
use crate::variable::Value;

verus! {

/// The pipe endpoints a command is wired to while it is spawned; -1 stands
/// for an inherited stream.
#[derive(Debug)]
pub struct Pipe {
    pub my_in: i32,
    pub my_out: i32,
    pub prev_out: i32,
    pub pgid: i32,
}

impl Pipe {
    pub fn new() -> (r: Pipe)
        ensures
            r.my_in == -1 && r.my_out == -1 && r.prev_out == -1 && r.pgid == 0,
    {
        Pipe { my_in: -1, my_out: -1, prev_out: -1, pgid: 0 }
    }

    /// Whether the command takes part in a pipe connection at all.
    pub fn is_connected(&self) -> (r: bool)
        ensures
            r == (self.my_in != -1 || self.my_out != -1 || self.prev_out != -1),
    {
        self.my_in != -1 || self.my_out != -1 || self.prev_out != -1
    }

    /// Gives the endpoints the child now owns back to the kernel; called in
    /// the parent right after a fork.
    pub fn parent_close(&mut self)
        ensures
            final(self).my_out == -1,
            final(self).prev_out == -1,
            final(self).my_in == old(self).my_in,
            final(self).pgid == old(self).pgid,
    {
        if self.my_out != -1 {
            sys::sys_close(self.my_out);
            self.my_out = -1;
        }
        if self.prev_out != -1 {
            sys::sys_close(self.prev_out);
            self.prev_out = -1;
        }
    }
}

/// What the parent closes right after spawning stage `i`: the write end of
/// the pipe feeding stage `i + 1`, and the read end the freshly spawned
/// stage drank from.
pub open spec fn spec_parent_closes(pipes: Seq<(i32, i32)>, i: int) -> Seq<i32> {
    let w = if 0 <= i < pipes.len() {
        seq![pipes[i].1]
    } else {
        Seq::<i32>::empty()
    };
    let r = if 1 <= i <= pipes.len() {
        seq![pipes[i - 1].0]
    } else {
        Seq::<i32>::empty()
    };
    w + r
}

/// Everything the parent closes from stage `i` to the end of the pipeline.
pub open spec fn spec_schedule_from(pipes: Seq<(i32, i32)>, i: int) -> Seq<i32>
    decreases pipes.len() + 1 - i when 0 <= i <= pipes.len() + 1
{
    if i > pipes.len() {
        Seq::empty()
    } else {
        spec_parent_closes(pipes, i) + spec_schedule_from(pipes, i + 1)
    }
}

/// Both ends of every pipe from index `j` on.
pub open spec fn spec_created_from(pipes: Seq<(i32, i32)>, j: int) -> Seq<i32>
    decreases pipes.len() - j when 0 <= j <= pipes.len()
{
    if j >= pipes.len() {
        Seq::empty()
    } else {
        seq![pipes[j].0, pipes[j].1] + spec_created_from(pipes, j + 1)
    }
}

/// Pipe fd hygiene: over a whole pipeline run, the parent's close schedule
/// covers exactly the descriptors that opening the pipes created — each
/// one once, none forgotten, none closed twice.
pub proof fn lemma_pipe_fd_hygiene(pipes: Seq<(i32, i32)>)
    ensures
        spec_schedule_from(pipes, 0).to_multiset() == spec_created_from(pipes, 0).to_multiset(),
{
    broadcast use vstd::seq_lib::lemma_multiset_commutative;
    broadcast use vstd::seq_lib::to_multiset_build;

    if pipes.len() == 0 {
        assert(spec_schedule_from(pipes, 0) =~= Seq::<i32>::empty());
        assert(spec_created_from(pipes, 0) =~= Seq::<i32>::empty());
    } else {
        lemma_schedule_tail(pipes, 1);
        assert(spec_parent_closes(pipes, 0) =~= seq![pipes[0].1]);
        assert(spec_schedule_from(pipes, 0) == seq![pipes[0].1] + spec_schedule_from(pipes, 1));
        assert(spec_schedule_from(pipes, 0).to_multiset() =~= spec_created_from(
            pipes,
            0,
        ).to_multiset()) by {
            assert(seq![pipes[0].0] =~= Seq::<i32>::empty().push(pipes[0].0));
            assert(seq![pipes[0].1] =~= Seq::<i32>::empty().push(pipes[0].1));
            assert(seq![pipes[0].0, pipes[0].1] =~= seq![pipes[0].0] + seq![pipes[0].1]);
            assert(spec_created_from(pipes, 0) == (seq![pipes[0].0] + seq![pipes[0].1])
                + spec_created_from(pipes, 1));
            vstd::seq_lib::lemma_multiset_commutative(seq![pipes[0].1], spec_schedule_from(pipes, 1));
            vstd::seq_lib::lemma_multiset_commutative(seq![pipes[0].0], seq![pipes[0].1]);
            vstd::seq_lib::lemma_multiset_commutative(
                seq![pipes[0].0] + seq![pipes[0].1],
                spec_created_from(pipes, 1),
            );
        }
    }
}

/// From any stage after the first: the rest of the schedule covers both
/// ends of the remaining pipes, plus the read end the previous stage left
/// open.
proof fn lemma_schedule_tail(pipes: Seq<(i32, i32)>, i: int)
    requires
        1 <= i <= pipes.len(),
    ensures
        spec_schedule_from(pipes, i).to_multiset() == spec_created_from(
            pipes,
            i,
        ).to_multiset().insert(pipes[i - 1].0),
    decreases pipes.len() - i,
{
    broadcast use vstd::seq_lib::lemma_multiset_commutative;
    broadcast use vstd::seq_lib::to_multiset_build;

    if i == pipes.len() {
        assert(spec_parent_closes(pipes, i) =~= seq![pipes[i - 1].0]);
        assert(spec_schedule_from(pipes, i + 1) =~= Seq::<i32>::empty());
        assert(spec_schedule_from(pipes, i) =~= seq![pipes[i - 1].0]);
        assert(spec_created_from(pipes, i) =~= Seq::<i32>::empty());
        assert(seq![pipes[i - 1].0].to_multiset() =~= Multiset::<i32>::empty().insert(
            pipes[i - 1].0,
        )) by {
            assert(seq![pipes[i - 1].0] =~= Seq::<i32>::empty().push(pipes[i - 1].0));
        }
    } else {
        lemma_schedule_tail(pipes, i + 1);
        assert(spec_parent_closes(pipes, i) =~= seq![pipes[i].1, pipes[i - 1].0]);
        assert(spec_schedule_from(pipes, i) == spec_parent_closes(pipes, i)
            + spec_schedule_from(pipes, i + 1));
        assert(spec_schedule_from(pipes, i).to_multiset() =~= spec_created_from(
            pipes,
            i,
        ).to_multiset().insert(pipes[i - 1].0)) by {
            vstd::seq_lib::lemma_multiset_commutative(
                spec_parent_closes(pipes, i),
                spec_schedule_from(pipes, i + 1),
            );
            assert(seq![pipes[i].1, pipes[i - 1].0] =~= Seq::<i32>::empty().push(
                pipes[i].1,
            ).push(pipes[i - 1].0));
            assert(seq![pipes[i].0, pipes[i].1] =~= Seq::<i32>::empty().push(pipes[i].0).push(
                pipes[i].1,
            ));
            assert(spec_created_from(pipes, i) == seq![pipes[i].0, pipes[i].1]
                + spec_created_from(pipes, i + 1));
            vstd::seq_lib::lemma_multiset_commutative(
                seq![pipes[i].0, pipes[i].1],
                spec_created_from(pipes, i + 1),
            );
        }
    }
}

/// The descriptors each stage is wired to and what the parent closes after
/// each spawn, for the given inter-stage pipes.
#[derive(Debug)]
pub struct PipelineWiring {
    /// Stage i reads from this descriptor; -1 means the inherited stdin.
    pub stage_stdin: Vec<i32>,
    /// Stage i writes to this descriptor; -1 means the inherited stdout.
    pub stage_stdout: Vec<i32>,
    /// What the parent closes right after spawning stage i.
    pub close_after_spawn: Vec<Vec<i32>>,
}

/// Plans the wiring of an `n`-stage pipeline from its `n - 1` pipes: stage
/// boundaries get the pipe ends in launch order, and the parent's close
/// schedule is exactly the hygienic one of `spec_parent_closes`.
pub fn wire_pipeline(pipes: &Vec<(i32, i32)>) -> (w: PipelineWiring)
    requires
        pipes@.len() + 1 <= usize::MAX,
    ensures
        w.stage_stdin@.len() == pipes@.len() + 1,
        w.stage_stdout@.len() == pipes@.len() + 1,
        w.close_after_spawn@.len() == pipes@.len() + 1,
        w.stage_stdin@[0] == -1,
        w.stage_stdout@[pipes@.len() as int] == -1,
        forall|i: int| 0 <= i < pipes@.len() ==> w.stage_stdout@[i] == (#[trigger] pipes@[i]).1,
        forall|i: int| 0 <= i < pipes@.len() ==> w.stage_stdin@[i + 1] == (#[trigger] pipes@[i]).0,
        forall|i: int|
            0 <= i <= pipes@.len() ==> (#[trigger] w.close_after_spawn@[i])@ == spec_parent_closes(
                pipes@,
                i,
            ),
{
    let n = pipes.len();
    let mut stage_stdin: Vec<i32> = Vec::new();
    let mut stage_stdout: Vec<i32> = Vec::new();
    let mut close_after_spawn: Vec<Vec<i32>> = Vec::new();
    let mut i: usize = 0;
    while i <= n
        invariant
            i <= n + 1,
            n == pipes@.len(),
            n + 1 <= usize::MAX,
            stage_stdin@.len() == i,
            stage_stdout@.len() == i,
            close_after_spawn@.len() == i,
            forall|j: int|
                0 <= j < i ==> stage_stdin@[j] == (if j == 0 {
                    -1int
                } else {
                    pipes@[j - 1].0 as int
                }),
            forall|j: int|
                0 <= j < i ==> stage_stdout@[j] == (if j < n {
                    pipes@[j].1 as int
                } else {
                    -1int
                }),
            forall|j: int|
                0 <= j < i ==> (#[trigger] close_after_spawn@[j])@ == spec_parent_closes(
                    pipes@,
                    j,
                ),
        decreases n + 1 - i,
    {
        if i == 0 {
            stage_stdin.push(-1);
        } else {
            stage_stdin.push(pipes[i - 1].0);
        }
        if i < n {
            stage_stdout.push(pipes[i].1);
        } else {
            stage_stdout.push(-1);
        }
        let mut closes: Vec<i32> = Vec::new();
        if i < n {
            closes.push(pipes[i].1);
        }
        if i >= 1 {
            closes.push(pipes[i - 1].0);
        }
        proof {
            assert(closes@ =~= spec_parent_closes(pipes@, i as int));
        }
        close_after_spawn.push(closes);
        i += 1;
    }
    PipelineWiring { stage_stdin, stage_stdout, close_after_spawn }
}

/// The last nonzero code, or 0 when every stage succeeded.
pub open spec fn spec_last_nonzero(codes: Seq<i32>) -> int
    decreases codes.len(),
{
    if codes.len() == 0 {
        0
    } else if codes.last() != 0 {
        codes.last() as int
    } else {
        spec_last_nonzero(codes.drop_last())
    }
}

/// The exit status a pipeline reports: the last stage's code, or under
/// pipefail the last nonzero code; a leading `!` then flips zero and
/// nonzero.
pub open spec fn spec_pipeline_final(
    codes: Seq<i32>,
    pipefail: bool,
    exclamation: bool,
) -> int {
    let base = if pipefail {
        spec_last_nonzero(codes)
    } else if codes.len() > 0 {
        codes.last() as int
    } else {
        0
    };
    if exclamation {
        if base == 0 {
            1
        } else {
            0
        }
    } else {
        base
    }
}

/// Exclamation flip: a leading `!` turns success into 1 and any failure
/// into 0, and what it does is independent of the pipefail setting's
/// numeric substitution.
pub proof fn lemma_exclamation_flip(codes: Seq<i32>, pipefail: bool)
    ensures
        spec_pipeline_final(codes, pipefail, true) == (if spec_pipeline_final(
            codes,
            pipefail,
            false,
        ) == 0 {
            1int
        } else {
            0int
        }),
        spec_pipeline_final(codes, pipefail, true) == 0 || spec_pipeline_final(
            codes,
            pipefail,
            true,
        ) == 1,
{
}

/// Records a finished pipeline in the database: `PIPESTATUS` becomes the
/// per-stage codes in launch order, replaced wholesale, and the exit
/// status becomes the pipefail/exclamation aggregate.
pub fn apply_pipeline_status(
    db: &mut DataBase,
    codes: &Vec<i32>,
    pipefail: bool,
    exclamation: bool,
)
    requires
        old(db).wf(),
    ensures
        final(db).wf(),
        final(db).exit_status == spec_pipeline_final(codes@, pipefail, exclamation),
        !old(db).readonly("PIPESTATUS"@) ==> crate::database::binding_put_shape(
            *old(db),
            *final(db),
            0,
            "PIPESTATUS"@,
        ) && (final(db).layer_entry(0, "PIPESTATUS"@) matches Some(v) && (
        v.value matches Value::Array(ad) && ad.data@.map_values(|s: String| s@)
            == codes@.map_values(|c: i32| text::spec_int_string(c as int)))),
        !old(db).readonly("PIPESTATUS"@) && (old(db).has_name("PIPESTATUS"@) ==> old(db).top_layer_of("PIPESTATUS"@) == 0) ==> (final(db).lookup("PIPESTATUS"@) matches Some(v)
            && (v.value matches Value::Array(ad) && ad.data@.map_values(|s: String| s@)
            == codes@.map_values(|c: i32| text::spec_int_string(c as int)))),
        old(db).readonly("PIPESTATUS"@) ==> final(db).layers() == old(db).layers(),
        final(db).num_layers() == old(db).num_layers(),
        final(db).position_parameters == old(db).position_parameters,
        final(db).alias_list() == old(db).alias_list(),
    {
    let n = codes.len();
    let mut strings: Vec<String> = Vec::new();
    let mut i: usize = 0;
    while i < n
        invariant
            i <= n,
            n == codes@.len(),
            strings@.len() == i,
            forall|j: int|
                0 <= j < i ==> (#[trigger] strings@[j])@ == text::spec_int_string(
                    codes@[j] as int,
                ),
        decreases n - i,
    {
        strings.push(text::i32_to_string(codes[i]));
        i += 1;
    }
    proof {
        assert(strings@.map_values(|s: String| s@) =~= codes@.map_values(
            |c: i32| text::spec_int_string(c as int),
        ));
    }
    let _ = db.set_layer_array("PIPESTATUS", strings, 0);
    let ghost mid = *db;
    let status = pipeline_final_status(codes, pipefail);
    if exclamation {
        if status == 0 {
            db.exit_status = 1;
        } else {
            db.exit_status = 0;
        }
    } else {
        db.exit_status = status;
    }
    proof {
        assert(db.layers() == mid.layers());
        if !old(db).readonly("PIPESTATUS"@) {
            assert(crate::database::binding_put_shape(*old(db), *db, 0, "PIPESTATUS"@)) by {
                assert forall|l: int|
                        0 <= l < old(db).num_layers() && l != 0 implies #[trigger] db.layers()[l] == old(
                        db,
                ).layers()[l] by {
                        assert(mid.layers()[l] == old(db).layers()[l]);
                }
                assert forall|k: Seq<char>|
                        k != "PIPESTATUS"@ implies #[trigger] crate::database::spec_entry_view(
                        *db,
                        0,
                        k,
                ) == crate::database::spec_entry_view(*old(db), 0, k) by {
                        assert(crate::database::spec_entry_view(mid, 0, k)
                            == crate::database::spec_entry_view(*old(db), 0, k));
                }
            }
            if !old(db).has_name("PIPESTATUS"@) || old(db).top_layer_of("PIPESTATUS"@) == 0 {
                crate::database::lemma_put_resolved_lookup(*old(db), *db, 0, "PIPESTATUS"@);
            }
        }
    }
}

/// The pre-flip aggregate: last stage's code, or under pipefail the last
/// nonzero one.
fn pipeline_final_status(codes: &Vec<i32>, pipefail: bool) -> (r: i32)
    ensures
        r == spec_pipeline_final(codes@, pipefail, false),
{
    if !pipefail {
        if codes.len() > 0 {
            codes[codes.len() - 1]
        } else {
            0
        }
    } else {
        let n = codes.len();
        let mut k: usize = n;
        proof {
            assert(codes@.take(n as int) =~= codes@);
        }
        while k > 0
            invariant
                k <= n,
                n == codes@.len(),
                spec_last_nonzero(codes@) == spec_last_nonzero(codes@.take(k as int)),
            ensures
                spec_last_nonzero(codes@) == (if k > 0 {
                    codes@[k - 1] as int
                } else {
                    0int
                }),
                k > 0 ==> codes@[k - 1] != 0,
            decreases k,
        {
            if codes[k - 1] != 0 {
                proof {
                    assert(codes@.take(k as int).last() == codes@[k - 1]);
                }
                break ;
            }
            proof {
                assert(codes@.take(k as int).last() == codes@[k - 1]);
                assert(codes@.take(k as int).drop_last() =~= codes@.take(k - 1));
            }
            k -= 1;
        }
        if k > 0 {
            codes[k - 1]
        } else {
            proof {
                assert(codes@.take(0) =~= Seq::<i32>::empty());
            }
            0
        }
    }
}

} // verus!


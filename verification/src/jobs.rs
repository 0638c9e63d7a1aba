//! Background jobs: one entry per asynchronous pipeline, with an id, the
//! process ids still being tracked, and a lifecycle that only moves
//! forward: Running to Done to Invalid (shown once, slot reusable), with
//! Stopped and Running trading places in between.

use vstd::prelude::*;
use crate::sys::{self, WaitOutcome};
use crate::text;

verus! {

#[derive(Debug, Clone, Copy, PartialEq, Eq, Structural)]
pub enum JobStatus {
    /// Still running in the background.
    Running,
    /// Stopped by a signal.
    Stopped,
    /// Every process has exited; not reported yet.
    Done,
    /// Reported once; the id may be reused.
    Invalid,
    /// Running in the foreground.
    Fg,
}

#[derive(Debug)]
pub struct Job {
    pub pids: Vec<i32>,
    /// The pids a poll still has to check; shrinks as processes exit.
    pub async_pids: Vec<i32>,
    pub text: String,
    pub status: JobStatus,
    pub id: usize,
    pub priority: u32,
}

/// The pids a poll keeps, given which were found finished; the poll pops
/// from the back, so the kept list comes out reversed.
pub open spec fn spec_remaining(pids: Seq<i32>, fin: Seq<bool>) -> Seq<i32>
    decreases pids.len(),
{
    if pids.len() == 0 || fin.len() != pids.len() {
        Seq::empty()
    } else {
        (if fin.last() {
            Seq::<i32>::empty()
        } else {
            seq![pids.last()]
        }) + spec_remaining(pids.drop_last(), fin.drop_last())
    }
}

impl Job {
    /// A fresh job over the given processes; backgrounded jobs start
    /// Running, foreground ones are marked Fg.
    pub fn new(text: &String, pids: Vec<i32>, is_bg: bool) -> (r: Job)
        ensures
            r.text@ == text@,
            r.pids@ == pids@,
            r.async_pids@ == pids@,
            r.status == (if is_bg {
                JobStatus::Running
            } else {
                JobStatus::Fg
            }),
            r.id == 0,
            r.priority == 0,
    {
        let mut tracked_pids: Vec<i32> = Vec::new();
        let n = pids.len();
        let mut i: usize = 0;
        while i < n
            invariant
                i <= n,
                n == pids@.len(),
                tracked_pids@.len() == i,
                forall|j: int| 0 <= j < i ==> tracked_pids@[j] == pids@[j],
            decreases n - i,
        {
            tracked_pids.push(pids[i]);
            i += 1;
        }
        assert(tracked_pids@ =~= pids@);
        Job {
            pids,
            async_pids: tracked_pids,
            text: text.clone(),
            status: if is_bg {
                JobStatus::Running
            } else {
                JobStatus::Fg
            },
            id: 0,
            priority: 0,
        }
    }

    /// The pure half of a poll: told which tracked pids have finished,
    /// drops them and advances Running to Done when none remain. A job
    /// past Running never changes.
    pub fn update_status(&mut self, finished: &Vec<bool>) -> (r: bool)
        requires
            finished@.len() == old(self).async_pids@.len(),
        ensures
            old(self).status != JobStatus::Running ==> *final(self) == *old(self) && r,
            old(self).status == JobStatus::Running ==> {
                &&& final(self).async_pids@ == spec_remaining(old(self).async_pids@, finished@)
                &&& final(self).status == (if final(self).async_pids@.len() == 0 {
                    JobStatus::Done
                } else {
                    JobStatus::Running
                })
                &&& r == (final(self).async_pids@.len() == 0)
                &&& final(self).pids == old(self).pids
                &&& final(self).text == old(self).text
                &&& final(self).id == old(self).id
            },
    {
        if !matches!(self.status, JobStatus::Running) {
            return true;
        }
        let mut remain: Vec<i32> = Vec::new();
        let ghost pids0 = self.async_pids@;
        let ghost fin0 = finished@;
        proof {
            assert(pids0.take(pids0.len() as int) =~= pids0);
            assert(fin0.take(pids0.len() as int) =~= fin0);
        }
        while self.async_pids.len() > 0
            invariant
                self.async_pids@.len() <= pids0.len(),
                fin0.len() == pids0.len(),
                finished@ == fin0,
                self.async_pids@ == pids0.take(self.async_pids@.len() as int),
                spec_remaining(pids0, fin0) == remain@ + spec_remaining(
                    pids0.take(self.async_pids@.len() as int),
                    fin0.take(self.async_pids@.len() as int),
                ),
                self.pids == old(self).pids,
                self.text == old(self).text,
                self.id == old(self).id,
                self.priority == old(self).priority,
                self.status == old(self).status,
            decreases self.async_pids@.len(),
        {
            let ghost len = self.async_pids@.len() as int;
            let p = match self.async_pids.pop() {
                Some(p) => p,
                None => {
                    assert(false);
                    0
                },
            };
            let k = self.async_pids.len();
            proof {
                assert(p == pids0[len - 1]);
                assert(pids0.take(len).last() == pids0[len - 1]);
                assert(fin0.take(len).last() == fin0[len - 1]);
                assert(pids0.take(len).drop_last() =~= pids0.take(len - 1));
                assert(fin0.take(len).drop_last() =~= fin0.take(len - 1));
                assert(self.async_pids@ =~= pids0.take(len - 1));
            }
            if !finished[k] {
                let ghost r0 = remain@;
                remain.push(p);
                proof {
                    assert(remain@ =~= r0 + seq![p]);
                    assert(r0 + (seq![p] + spec_remaining(pids0.take(len - 1), fin0.take(len - 1)))
                        =~= (r0 + seq![p]) + spec_remaining(pids0.take(len - 1), fin0.take(len - 1)));
                }
            } else {
                proof {
                    assert(Seq::<i32>::empty() + spec_remaining(
                        pids0.take(len - 1),
                        fin0.take(len - 1),
                    ) =~= spec_remaining(pids0.take(len - 1), fin0.take(len - 1)));
                }
            }
        }
        proof {
            assert(pids0.take(0) =~= Seq::<i32>::empty());
            assert(spec_remaining(Seq::<i32>::empty(), fin0.take(0)) =~= Seq::<i32>::empty());
            assert(remain@ + Seq::<i32>::empty() =~= remain@);
        }
        if remain.len() == 0 {
            self.status = JobStatus::Done;
        }
        self.async_pids = remain;
        self.async_pids.len() == 0
    }

    /// One real poll step: asks the kernel, without blocking, which
    /// tracked pids have changed state, and advances the status
    /// accordingly. True when nothing is left to wait for.
    pub fn check_of_finish(&mut self) -> (r: bool)
        ensures
            old(self).status != JobStatus::Running ==> *final(self) == *old(self) && r,
            old(self).status == JobStatus::Running ==> {
                &&& r == (final(self).async_pids@.len() == 0)
                &&& final(self).status == (if final(self).async_pids@.len() == 0 {
                    JobStatus::Done
                } else {
                    JobStatus::Running
                })
                &&& final(self).pids == old(self).pids
                &&& final(self).text == old(self).text
                &&& final(self).id == old(self).id
            },
    {
        if !matches!(self.status, JobStatus::Running) {
            return true;
        }
        let mut remain: Vec<i32> = Vec::new();
        while self.async_pids.len() > 0
            invariant
                self.pids == old(self).pids,
                self.text == old(self).text,
                self.id == old(self).id,
                self.priority == old(self).priority,
                self.status == old(self).status,
            decreases self.async_pids@.len(),
        {
            let p = match self.async_pids.pop() {
                Some(p) => p,
                None => {
                    assert(false);
                    0
                },
            };
            if !Self::check_async_process(p) {
                remain.push(p);
            }
        }
        if remain.len() == 0 {
            self.status = JobStatus::Done;
        }
        self.async_pids = remain;
        self.async_pids.len() == 0
    }

    /// Whether the process has left the running state; a failed wait call
    /// counts as finished, as there is nothing left to track.
    pub fn check_async_process(pid: i32) -> (r: bool) {
        let ws = sys::wait_nohang(pid);
        match ws {
            WaitOutcome::StillAlive => false,
            _ => true,
        }
    }

    /// The one-line listing of this job, with `+` for the current job and
    /// `-` for the previous one.
    pub fn status_string(&self, first: usize, second: usize) -> (r: String)
        ensures
            r@ == spec_status_string(*self, first as int, second as int),
    {
        let mark: char = if self.id == first {
            '+'
        } else if self.id == second {
            '-'
        } else {
            ' '
        };
        let status = match self.status {
            JobStatus::Done => "Done",
            JobStatus::Stopped => "Stopped",
            JobStatus::Running => "Running",
            _ => "ERROR",
        };
        let mut out = String::from_str("[");
        let id_str = text::usize_to_string(self.id);
        out.append(id_str.as_str());
        out.append("]");
        text::push_char(&mut out, mark);
        out.append(" ");
        out.append(status);
        out.append("\t\t");
        let trimmed = trim_end_copy(&self.text);
        out.append(trimmed.as_str());
        out
    }

    /// Hands the listing line out once: an Invalid job is silent, and a
    /// Done job becomes Invalid the moment its line is taken, so a second
    /// report is suppressed and the id freed.
    pub fn take_status_line(&mut self, first: usize, second: usize) -> (r: Option<String>)
        ensures
            old(self).status == JobStatus::Invalid ==> r is None && *final(self) == *old(self),
            old(self).status != JobStatus::Invalid ==> {
                &&& (r matches Some(line) && line@ == spec_status_string(
                    *old(self),
                    first as int,
                    second as int,
                ))
                &&& final(self).status == (if old(self).status == JobStatus::Done {
                    JobStatus::Invalid
                } else {
                    old(self).status
                })
                &&& final(self).pids == old(self).pids
                &&& final(self).async_pids == old(self).async_pids
                &&& final(self).text == old(self).text
                &&& final(self).id == old(self).id
            },
    {
        if matches!(self.status, JobStatus::Invalid) {
            return None;
        }
        let line = self.status_string(first, second);
        if matches!(self.status, JobStatus::Done) {
            self.status = JobStatus::Invalid;
        }
        Some(line)
    }
}

/// The listing lines of the first `i` slots: one line per job that is
/// not Invalid.
pub open spec fn spec_job_lines(entries: Seq<Job>, i: int, first: int, second: int) -> Seq<
    Seq<char>,
>
    decreases i,
{
    if i <= 0 {
        Seq::empty()
    } else {
        spec_job_lines(entries, i - 1, first, second) + (
        if entries[i - 1].status == JobStatus::Invalid {
            Seq::<Seq<char>>::empty()
        } else {
            seq![spec_status_string(entries[i - 1], first, second)]
        })
    }
}

/// The text of one job listing line.
pub open spec fn spec_status_string(j: Job, first: int, second: int) -> Seq<char> {
    let mark = if j.id == first {
        '+'
    } else if j.id == second {
        '-'
    } else {
        ' '
    };
    let status = match j.status {
        JobStatus::Done => "Done"@,
        JobStatus::Stopped => "Stopped"@,
        JobStatus::Running => "Running"@,
        _ => "ERROR"@,
    };
    "["@ + text::spec_nat_digits(j.id as nat) + "]"@ + seq![mark] + " "@ + status + "\t\t"@
        + spec_trim_end(j.text@)
}

/// The text without trailing blanks and newlines.
pub open spec fn spec_trim_end(s: Seq<char>) -> Seq<char>
    decreases s.len(),
{
    if s.len() == 0 {
        s
    } else if s.last() == ' ' || s.last() == '\t' || s.last() == '\n' {
        spec_trim_end(s.drop_last())
    } else {
        s
    }
}

/// A copy of the text without trailing blanks and newlines.
pub fn trim_end_copy(s: &String) -> (r: String)
    ensures
        r@ == spec_trim_end(s@),
{
    let len = s.as_str().unicode_len();
    let mut end = len;
    proof {
        assert(s@.take(len as int) =~= s@);
    }
    while end > 0
        invariant
            end <= len,
            len == s@.len(),
            spec_trim_end(s@) == spec_trim_end(s@.take(end as int)),
        ensures
            end <= len,
            spec_trim_end(s@) == spec_trim_end(s@.take(end as int)),
            end > 0 ==> !(s@[end - 1] == ' ' || s@[end - 1] == '\t' || s@[end - 1] == '\n'),
        decreases end,
    {
        let c = s.as_str().get_char(end - 1);
        if c == ' ' || c == '\t' || c == '\n' {
            proof {
                assert(s@.take(end as int).last() == s@[end - 1]);
                assert(s@.take(end as int).drop_last() =~= s@.take(end - 1));
            }
            end -= 1;
        } else {
            break ;
        }
    }
    let r = text::substring_copy(s.as_str(), 0, end);
    proof {
        if end > 0 {
            assert(s@.take(end as int).last() == s@[end - 1]);
        } else {
            assert(s@.take(0) =~= Seq::<char>::empty());
        }
    }
    r
}

/// The job table: slot `i` always carries id `i + 1`, and a slot whose job
/// is Invalid is free for reuse. Registration therefore hands out the
/// lowest free id.
#[derive(Debug)]
pub struct JobTable {
    pub entries: Vec<Job>,
    /// Ids in the order the jobs were touched; the last is the current
    /// job, the one before it the previous job.
    pub recent: Vec<usize>,
}

impl JobTable {
    /// Slot `i` holds id `i + 1`.
    pub open spec fn wf(self) -> bool {
        forall|i: int| 0 <= i < self.entries@.len() ==> (#[trigger] self.entries@[i]).id == i + 1
    }

    pub fn new() -> (r: JobTable)
        ensures
            r.wf(),
            r.entries@.len() == 0,
            r.recent@.len() == 0,
    {
        JobTable { entries: Vec::new(), recent: Vec::new() }
    }

    /// The lowest id not taken by a live job: the first Invalid slot's id,
    /// or one past the end.
    pub open spec fn spec_free_slot(self, i: int) -> int
        decreases self.entries@.len() - i when 0 <= i <= self.entries@.len()
    {
        if i >= self.entries@.len() {
            i
        } else if self.entries@[i].status == JobStatus::Invalid {
            i
        } else {
            self.spec_free_slot(i + 1)
        }
    }

    /// Registers a background pipeline: the job takes the lowest free id,
    /// starts Running (or Fg when not backgrounded), and becomes the
    /// current job.
    pub fn register(&mut self, text: &String, pids: Vec<i32>, is_bg: bool) -> (id: usize)
        requires
            old(self).wf(),
            old(self).entries@.len() < usize::MAX - 1,
            old(self).recent@.len() < usize::MAX,
        ensures
            final(self).wf(),
            id == old(self).spec_free_slot(0) + 1,
            final(self).entries@.len() >= old(self).entries@.len(),
            final(self).entries@[id - 1].id == id,
            final(self).entries@[id - 1].status == (if is_bg {
                JobStatus::Running
            } else {
                JobStatus::Fg
            }),
            final(self).entries@[id - 1].pids@ == pids@,
            final(self).entries@[id - 1].text@ == text@,
            forall|i: int|
                0 <= i < old(self).entries@.len() && i != id - 1
                    ==> #[trigger] final(self).entries@[i] == old(self).entries@[i],
            final(self).recent@ == old(self).recent@.push(id),
    {
        let n = self.entries.len();
        let mut slot: usize = 0;
        while slot < n
            invariant
                slot <= n,
                n == self.entries@.len(),
                self.spec_free_slot(0) == self.spec_free_slot(slot as int),
                forall|i: int|
                    0 <= i < slot ==> (#[trigger] self.entries@[i]).status != JobStatus::Invalid,
            ensures
                slot <= n,
                self.spec_free_slot(0) == slot,
            decreases n - slot,
        {
            if matches!(self.entries[slot].status, JobStatus::Invalid) {
                break ;
            }
            slot += 1;
        }
        let mut job = Job::new(text, pids, is_bg);
        job.id = slot + 1;
        if slot < n {
            self.entries.set(slot, job);
        } else {
            self.entries.push(job);
        }
        self.recent.push(slot + 1);
        slot + 1
    }

    /// Polls one job by id: an unknown id reports finished with the table
    /// untouched; a known job keeps its identity and only advances from
    /// Running to Done, exactly when no tracked pid remains.
    pub fn poll(&mut self, id: usize) -> (r: bool)
        requires
            old(self).wf(),
        ensures
            final(self).wf(),
            final(self).entries@.len() == old(self).entries@.len(),
            forall|i: int|
                0 <= i < old(self).entries@.len() && i != id - 1
                    ==> #[trigger] final(self).entries@[i] == old(self).entries@[i],
            final(self).recent@ == old(self).recent@,
            id == 0 || id > old(self).entries@.len() ==> r && final(self).entries@ == old(self).entries@,
            1 <= id <= old(self).entries@.len() ==> ({
                let e0 = old(self).entries@[id - 1];
                let e1 = final(self).entries@[id - 1];
                &&& e1.id == e0.id
                &&& e1.pids == e0.pids
                &&& e1.text == e0.text
                &&& (e0.status != JobStatus::Running ==> e1 == e0 && r)
                &&& (e0.status == JobStatus::Running ==> e1.status == (
                if e1.async_pids@.len() == 0 {
                    JobStatus::Done
                } else {
                    JobStatus::Running
                }) && r == (e1.async_pids@.len() == 0))
            }),
    {
        if id == 0 || id > self.entries.len() {
            return true;
        }
        let ghost pre = *self;
        let slot = id - 1;
        let e = &mut self.entries[slot];
        let r = e.check_of_finish();
        proof {
            assert(self.entries@[slot as int].id == pre.entries@[slot as int].id);
            assert(forall|i: int|
                0 <= i < self.entries@.len() && i != slot ==> #[trigger] self.entries@[i]
                    == pre.entries@[i]);
        }
        r
    }

    /// The listing: exactly one line per job that is not Invalid, in slot
    /// order; Done jobs become Invalid as their line is taken, everything
    /// else keeps its state.
    #[verifier::loop_isolation(false)]
    pub fn list(&mut self, first: usize, second: usize) -> (r: Vec<String>)
        requires
            old(self).wf(),
        ensures
            final(self).wf(),
            final(self).entries@.len() == old(self).entries@.len(),
            final(self).recent@ == old(self).recent@,
            r@.map_values(|x: String| x@) == spec_job_lines(
                old(self).entries@,
                old(self).entries@.len() as int,
                first as int,
                second as int,
            ),
            forall|i: int|
                0 <= i < old(self).entries@.len() ==> ({
                    let e0 = old(self).entries@[i];
                    let e1 = #[trigger] final(self).entries@[i];
                    &&& e1.status == (if e0.status == JobStatus::Done {
                        JobStatus::Invalid
                    } else {
                        e0.status
                    })
                    &&& e1.id == e0.id
                    &&& e1.pids == e0.pids
                    &&& e1.async_pids == e0.async_pids
                    &&& e1.text == e0.text
                }),
    {
        let n = self.entries.len();
        let mut out: Vec<String> = Vec::new();
        let mut i: usize = 0;
        proof {
            assert(out@.map_values(|x: String| x@) =~= spec_job_lines(
                old(self).entries@,
                0,
                first as int,
                second as int,
            ));
        }
        while i < n
            invariant
                i <= n,
                n == self.entries@.len(),
                self.wf(),
                self.recent@ == old(self).recent@,
                out@.map_values(|x: String| x@) == spec_job_lines(
                    old(self).entries@,
                    i as int,
                    first as int,
                    second as int,
                ),
                forall|j: int| i <= j < n ==> #[trigger] self.entries@[j] == old(self).entries@[j],
                forall|j: int|
                    0 <= j < i ==> ({
                        let e0 = old(self).entries@[j];
                        let e1 = #[trigger] self.entries@[j];
                        &&& e1.status == (if e0.status == JobStatus::Done {
                            JobStatus::Invalid
                        } else {
                            e0.status
                        })
                        &&& e1.id == e0.id
                        &&& e1.pids == e0.pids
                        &&& e1.async_pids == e0.async_pids
                        &&& e1.text == e0.text
                    }),
            decreases n - i,
        {
            let ghost pre = *self;
            let e = &mut self.entries[i];
            let line = e.take_status_line(first, second);
            proof {
                assert(pre.entries@[i as int] == old(self).entries@[i as int]);
                assert(self.entries@[i as int].id == pre.entries@[i as int].id);
                assert(forall|j: int|
                    0 <= j < self.entries@.len() && j != i ==> #[trigger] self.entries@[j]
                        == pre.entries@[j]);
            }
            let ghost before = out@.map_values(|x: String| x@);
            match line {
                Some(l) => {
                    out.push(l);
                    proof {
                        assert(out@.map_values(|x: String| x@) =~= before.push(
                            spec_status_string(
                                old(self).entries@[i as int],
                                first as int,
                                second as int,
                            ),
                        ));
                        assert(out@.map_values(|x: String| x@) =~= spec_job_lines(
                            old(self).entries@,
                            i + 1,
                            first as int,
                            second as int,
                        ));
                    }
                },
                None => {
                    proof {
                        assert(old(self).entries@[i as int].status == JobStatus::Invalid);
                        assert(out@.map_values(|x: String| x@) =~= spec_job_lines(
                            old(self).entries@,
                            i + 1,
                            first as int,
                            second as int,
                        ));
                    }
                },
            }
            i += 1;
        }
        out
    }

    /// The current job's id, if any job was ever registered.
    pub fn current(&self) -> (r: usize)
        ensures
            r == (if self.recent@.len() > 0 {
                self.recent@.last() as int
            } else {
                0int
            }),
    {
        if self.recent.len() > 0 {
            self.recent[self.recent.len() - 1]
        } else {
            0
        }
    }

    /// The previous job's id, if two jobs were ever registered.
    pub fn previous(&self) -> (r: usize)
        ensures
            r == (if self.recent@.len() > 1 {
                self.recent@[self.recent@.len() - 2] as int
            } else {
                0int
            }),
    {
        if self.recent.len() > 1 {
            self.recent[self.recent.len() - 2]
        } else {
            0
        }
    }
}

} // verus!

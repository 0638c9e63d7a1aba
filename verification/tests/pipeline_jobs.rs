use sush::database::DataBase;
use sush::jobs::{Job, JobStatus, JobTable};
use sush::pipeline::{apply_pipeline_status, wire_pipeline, Pipe};
use sush::sys::WaitOutcome;
use sush::child::wait_exit_code;

#[test]
fn pipefail_ordering_three_stages() {
    // Exit codes [0, 2, 0]: with pipefail $? is 2, without it 0, and
    // PIPESTATUS is [0, 2, 0] in both cases.
    let mut db = DataBase::new();
    apply_pipeline_status(&mut db, &vec![0, 2, 0], true, false);
    assert_eq!(db.exit_status, 2);
    assert_eq!(db.get_array("PIPESTATUS", "@"), "0 2 0");

    let mut db2 = DataBase::new();
    apply_pipeline_status(&mut db2, &vec![0, 2, 0], false, false);
    assert_eq!(db2.exit_status, 0);
    assert_eq!(db2.get_array("PIPESTATUS", "@"), "0 2 0");
}

#[test]
fn pipefail_takes_last_nonzero() {
    let mut db = DataBase::new();
    apply_pipeline_status(&mut db, &vec![3, 0, 5, 0, 0], true, false);
    assert_eq!(db.exit_status, 5);
}

#[test]
fn exclamation_flips_true_and_false() {
    // ! true gives 1; ! false gives 0; independent of pipefail.
    for pipefail in [false, true] {
        let mut db = DataBase::new();
        apply_pipeline_status(&mut db, &vec![0], pipefail, true);
        assert_eq!(db.exit_status, 1);

        let mut db2 = DataBase::new();
        apply_pipeline_status(&mut db2, &vec![1], pipefail, true);
        assert_eq!(db2.exit_status, 0);
    }
}

#[test]
fn exclamation_with_pipefail_substitution() {
    let mut db = DataBase::new();
    apply_pipeline_status(&mut db, &vec![0, 2, 0], true, true);
    assert_eq!(db.exit_status, 0);
    let mut db2 = DataBase::new();
    apply_pipeline_status(&mut db2, &vec![0, 2, 0], false, true);
    assert_eq!(db2.exit_status, 1);
}

#[test]
fn pipe_fd_hygiene_schedule_closes_everything_once() {
    // cmd1 | cmd2 | cmd3: two pipes; the parent's close schedule holds
    // every created end exactly once.
    let pipes = vec![(3, 4), (5, 6)];
    let w = wire_pipeline(&pipes);
    assert_eq!(w.stage_stdin, vec![-1, 3, 5]);
    assert_eq!(w.stage_stdout, vec![4, 6, -1]);
    let mut closed: Vec<i32> = Vec::new();
    for stage in &w.close_after_spawn {
        for fd in stage {
            closed.push(*fd);
        }
    }
    let mut created = vec![3, 4, 5, 6];
    closed.sort();
    created.sort();
    assert_eq!(closed, created);
}

#[test]
fn single_command_pipeline_has_no_pipes() {
    let pipes: Vec<(i32, i32)> = vec![];
    let w = wire_pipeline(&pipes);
    assert_eq!(w.stage_stdin, vec![-1]);
    assert_eq!(w.stage_stdout, vec![-1]);
    assert_eq!(w.close_after_spawn.len(), 1);
    assert!(w.close_after_spawn[0].is_empty());
}

#[test]
fn pipe_struct_connection() {
    let p = Pipe::new();
    assert!(!p.is_connected());
    let q = Pipe { my_in: 5, my_out: -1, prev_out: -1, pgid: 0 };
    assert!(q.is_connected());
}

#[test]
fn wait_exit_codes() {
    assert_eq!(wait_exit_code(&WaitOutcome::Exited(10, 3)), Some(3));
    assert_eq!(wait_exit_code(&WaitOutcome::Signaled(10, 9, false)), Some(137));
    assert_eq!(wait_exit_code(&WaitOutcome::Stopped(10, 19)), Some(148));
    assert_eq!(wait_exit_code(&WaitOutcome::Failed), None);
}

#[test]
fn job_lifecycle_running_done_invalid_reuse() {
    // Backgrounding registers a Running job; once every pid has exited a
    // poll makes it Done; one report makes it Invalid and frees the id.
    let mut table = JobTable::new();
    let id = table.register(&"sleep 1 &".to_string(), vec![4242], true);
    assert_eq!(id, 1);
    assert!(matches!(table.entries[0].status, JobStatus::Running));

    // The pure poll step: every tracked pid reported finished.
    let finished = vec![true];
    assert!(table.entries[0].update_status(&finished));
    assert!(matches!(table.entries[0].status, JobStatus::Done));

    // First report prints; it flips the job to Invalid.
    let line = table.entries[0].take_status_line(1, 0);
    assert!(line.is_some());
    assert!(line.unwrap().contains("Done"));
    assert!(matches!(table.entries[0].status, JobStatus::Invalid));

    // Second report is suppressed.
    assert!(table.entries[0].take_status_line(1, 0).is_none());

    // The slot is free again: the next registration reuses id 1.
    let id2 = table.register(&"sleep 2 &".to_string(), vec![4343], true);
    assert_eq!(id2, 1);
}

#[test]
fn job_ids_count_up_while_live() {
    let mut table = JobTable::new();
    let a = table.register(&"one &".to_string(), vec![10], true);
    let b = table.register(&"two &".to_string(), vec![11], true);
    assert_eq!(a, 1);
    assert_eq!(b, 2);
    assert_eq!(table.current(), 2);
    assert_eq!(table.previous(), 1);
}

#[test]
fn job_partial_finish_stays_running() {
    let mut job = Job::new(&"a | b &".to_string(), vec![100, 101], true);
    let finished = vec![true, false];
    assert!(!job.update_status(&finished));
    assert!(matches!(job.status, JobStatus::Running));
    assert_eq!(job.async_pids.len(), 1);
}

#[test]
fn job_status_string_markers() {
    let mut job = Job::new(&"sleep 5 &  ".to_string(), vec![7], true);
    job.id = 1;
    let line = job.status_string(1, 0);
    assert_eq!(line, "[1]+ Running\t\tsleep 5 &");
    let other = job.status_string(9, 1);
    assert_eq!(other, "[1]- Running\t\tsleep 5 &");
}

#[test]
fn foreground_job_is_not_reported_done() {
    let mut job = Job::new(&"ls".to_string(), vec![7], false);
    assert!(matches!(job.status, JobStatus::Fg));
    // A non-running job never changes in a poll.
    assert!(job.update_status(&vec![false]));
    assert!(matches!(job.status, JobStatus::Fg));
}

#[test]
fn poll_against_dead_pid_finishes_job() {
    // A pid this process never owned: the wait fails, and the poll treats
    // the process as gone.
    let mut job = Job::new(&"ghost &".to_string(), vec![989898], true);
    assert!(job.check_of_finish());
    assert!(matches!(job.status, JobStatus::Done));
}

#[test]
fn job_poll_unknown_id_is_noop() {
    let mut table = JobTable::new();
    table.register(&"x &".to_string(), vec![999999], true);
    assert!(table.poll(0));
    assert!(table.poll(7));
    assert!(matches!(table.entries[0].status, JobStatus::Running) || matches!(table.entries[0].status, JobStatus::Done));
}

#[test]
fn job_list_reports_each_done_job_once() {
    let mut table = JobTable::new();
    table.register(&"one &".to_string(), vec![11], true);
    table.register(&"two &".to_string(), vec![12], true);
    assert!(table.entries[0].update_status(&vec![true]));
    let first = table.current();
    let second = table.previous();
    let lines = table.list(first, second);
    assert_eq!(lines.len(), 2);
    assert!(lines[0].contains("Done"));
    assert!(lines[1].contains("Running"));
    // The Done job was reported once; only the running one remains listed.
    let again = table.list(first, second);
    assert_eq!(again.len(), 1);
    assert!(again[0].contains("Running"));
}

#[test]
fn pipeline_status_is_replaced_wholesale() {
    let mut db = DataBase::new();
    apply_pipeline_status(&mut db, &vec![1, 1], false, false);
    assert_eq!(db.get_array("PIPESTATUS", "@"), "1 1");
    apply_pipeline_status(&mut db, &vec![0], false, false);
    assert_eq!(db.get_array("PIPESTATUS", "@"), "0");
}

use execute_in_dirs::gate::Gate;
use execute_in_dirs::job::{collect_results, job_step, JobEvent, JobPhase};
use execute_in_dirs::outcome::{aggregate, classify_wait, outcome_message, JobResult, Outcome};
use execute_in_dirs::tee::{render_line, trim_end, Channel, Sink, Tee};

#[test]
fn trim_end_strips_trailing_separators() {
    assert_eq!(trim_end(b"/tmp/x/", b'/'), b"/tmp/x");
    assert_eq!(trim_end(b"/tmp/x", b'/'), b"/tmp/x");
    assert_eq!(trim_end(b"/tmp/x///", b'/'), b"/tmp/x");
    assert_eq!(trim_end(b"///", b'/'), b"");
    assert_eq!(trim_end(b"", b'/'), b"");
    assert_eq!(trim_end(b"aaa", b'a'), b"");
}

#[test]
fn prefixes_normalize_alike() {
    let with_sep = render_line(b"/tmp/x/", b"out\n");
    let without_sep = render_line(b"/tmp/x", b"out\n");
    assert_eq!(with_sep, without_sep);
    assert_eq!(with_sep, b"/tmp/x: out\n".to_vec());
}

#[test]
fn tee_splits_lines_and_keeps_fragments() {
    let mut tee = Tee::new();
    let lines = tee.feed(b"A\nB");
    assert_eq!(lines, vec![b"A\n".to_vec()]);
    assert_eq!(tee.pending, b"B".to_vec());
    let lines = tee.feed(b"\nC\n");
    assert_eq!(lines, vec![b"B\n".to_vec(), b"C\n".to_vec()]);
    assert!(tee.pending.is_empty());
}

#[test]
fn tee_takes_several_lines_from_one_chunk() {
    let mut tee = Tee::new();
    let lines = tee.feed(b"one\ntwo\nthree");
    assert_eq!(lines, vec![b"one\n".to_vec(), b"two\n".to_vec()]);
    assert_eq!(tee.pending, b"three".to_vec());
    assert!(tee.feed(b"").is_empty());
    assert_eq!(tee.pending, b"three".to_vec());
}

#[test]
fn tee_holds_back_partial_line() {
    let mut tee = Tee::new();
    let lines = tee.feed(b"no newline yet");
    assert!(lines.is_empty());
    assert_eq!(tee.pending, b"no newline yet".to_vec());
}

#[test]
fn line_integrity_two_stdout_one_stderr() {
    // A child writing "A\nB\n" to stdout and "C\n" to stderr yields exactly
    // two prefixed stdout lines and one prefixed stderr line, payloads
    // unmodified.
    let mut sink = Sink::new();
    let mut out_tee = Tee::new();
    let mut err_tee = Tee::new();
    for line in out_tee.feed(b"A\nB\n") {
        sink.write_line(Channel::Output, b"/tmp/x", &line);
    }
    for line in err_tee.feed(b"C\n") {
        sink.write_line(Channel::Error, b"/tmp/x", &line);
    }
    assert_eq!(sink.out, b"/tmp/x: A\n/tmp/x: B\n".to_vec());
    assert_eq!(sink.err, b"/tmp/x: C\n".to_vec());
}

#[test]
fn classify_wait_maps_termination() {
    assert!(matches!(classify_wait(Ok((Some(0), None))), Outcome::Success));
    assert!(matches!(classify_wait(Ok((Some(3), None))), Outcome::ExitCode(3)));
    assert!(matches!(classify_wait(Ok((None, Some(9)))), Outcome::Signal(9)));
    match classify_wait(Err(b"broken pipe".to_vec())) {
        Outcome::IOError(m) => assert_eq!(m, b"broken pipe".to_vec()),
        _ => panic!("expected an I/O error outcome"),
    }
}

#[test]
fn outcome_messages_render() {
    assert!(outcome_message(&Outcome::Success).is_none());
    assert_eq!(outcome_message(&Outcome::ExitCode(3)).unwrap(), b"exited 3\n".to_vec());
    assert_eq!(outcome_message(&Outcome::ExitCode(-1)).unwrap(), b"exited -1\n".to_vec());
    assert_eq!(outcome_message(&Outcome::Signal(11)).unwrap(), b"signaled 11\n".to_vec());
    assert_eq!(
        outcome_message(&Outcome::IOError(b"no such file".to_vec())).unwrap(),
        b"no such file\n".to_vec()
    );
    assert_eq!(outcome_message(&Outcome::TaskFailure).unwrap(), b"failed\n".to_vec());
}

fn result(dir: &[u8], outcome: Outcome) -> JobResult {
    JobResult { dir: dir.to_vec(), outcome }
}

#[test]
fn all_success_is_silent_and_zero() {
    let results = vec![
        result(b"/a", Outcome::Success),
        result(b"/b", Outcome::Success),
        result(b"/c", Outcome::Success),
    ];
    let summary = aggregate(&results);
    assert_eq!(summary.exit_code, 0);
    assert!(summary.diagnostics.is_empty());
}

#[test]
fn an_empty_batch_is_silent_and_zero() {
    let summary = aggregate(&Vec::new());
    assert_eq!(summary.exit_code, 0);
    assert!(summary.diagnostics.is_empty());
}

#[test]
fn each_failure_yields_one_line() {
    let results = vec![
        result(b"/a", Outcome::Success),
        result(b"/b", Outcome::ExitCode(2)),
        result(b"/c", Outcome::Success),
        result(b"/d", Outcome::Signal(15)),
        result(b"/e", Outcome::TaskFailure),
    ];
    let summary = aggregate(&results);
    assert_eq!(summary.exit_code, 1);
    assert_eq!(
        summary.diagnostics,
        vec![
            b"/b: exited 2\n".to_vec(),
            b"/d: signaled 15\n".to_vec(),
            b"/e: failed\n".to_vec(),
        ]
    );
}

#[test]
fn spawn_failure_is_isolated() {
    // One directory whose process fails to spawn does not disturb the
    // others: they stay silent and successful, the batch exits one.
    let results = vec![
        result(b"/ok1", Outcome::Success),
        result(b"/bad", Outcome::IOError(b"No such file or directory (os error 2)".to_vec())),
        result(b"/ok2", Outcome::Success),
    ];
    let summary = aggregate(&results);
    assert_eq!(summary.exit_code, 1);
    assert_eq!(
        summary.diagnostics,
        vec![b"/bad: No such file or directory (os error 2)\n".to_vec()]
    );
}

#[test]
fn aggregation_is_order_insensitive() {
    let forward = vec![
        result(b"/a", Outcome::ExitCode(1)),
        result(b"/b", Outcome::Success),
        result(b"/c", Outcome::Signal(9)),
    ];
    let backward = vec![
        result(b"/c", Outcome::Signal(9)),
        result(b"/b", Outcome::Success),
        result(b"/a", Outcome::ExitCode(1)),
    ];
    let first = aggregate(&forward);
    let second = aggregate(&backward);
    assert_eq!(first.exit_code, second.exit_code);
    let mut first_lines = first.diagnostics.clone();
    let mut second_lines = second.diagnostics.clone();
    first_lines.sort();
    second_lines.sort();
    assert_eq!(first_lines, second_lines);
}

#[test]
fn aggregation_is_idempotent() {
    let make = || {
        vec![
            result(b"/a", Outcome::ExitCode(7)),
            result(b"/b", Outcome::Success),
        ]
    };
    let first = aggregate(&make());
    let second = aggregate(&make());
    assert_eq!(first.exit_code, second.exit_code);
    assert_eq!(first.diagnostics, second.diagnostics);
}

#[test]
fn job_walks_through_its_lifecycle() {
    let phase = JobPhase::AllocOutputPipe;
    let phase = job_step(phase, JobEvent::PipeAllocated);
    assert!(matches!(phase, JobPhase::AllocErrorPipe));
    let phase = job_step(phase, JobEvent::PipeAllocated);
    assert!(matches!(phase, JobPhase::Spawn));
    let phase = job_step(phase, JobEvent::Spawned);
    assert!(matches!(phase, JobPhase::Wait));
    let phase = job_step(phase, JobEvent::Exited(Some(0), None));
    assert!(matches!(phase, JobPhase::Done(Outcome::Success)));
}

#[test]
fn job_setup_failures_end_immediately() {
    let phase = job_step(JobPhase::AllocOutputPipe, JobEvent::PipeFailed(b"ulimit".to_vec()));
    assert!(matches!(phase, JobPhase::Done(Outcome::IOError(_))));
    let phase = job_step(JobPhase::Spawn, JobEvent::SpawnFailed(b"not found".to_vec()));
    assert!(matches!(phase, JobPhase::Done(Outcome::IOError(_))));
    let phase = job_step(JobPhase::Wait, JobEvent::WaitFailed(b"interrupted".to_vec()));
    assert!(matches!(phase, JobPhase::Done(Outcome::IOError(_))));
    let phase = job_step(JobPhase::Wait, JobEvent::Exited(None, Some(9)));
    assert!(matches!(phase, JobPhase::Done(Outcome::Signal(9))));
    let phase = job_step(JobPhase::Wait, JobEvent::Exited(Some(4), None));
    assert!(matches!(phase, JobPhase::Done(Outcome::ExitCode(4))));
}

#[test]
fn lost_tasks_become_task_failures() {
    let dirs = vec![b"/a".to_vec(), b"/b".to_vec(), b"/c".to_vec()];
    let delivered = vec![Some(Outcome::Success), None, Some(Outcome::ExitCode(1))];
    let results = collect_results(dirs, delivered);
    assert_eq!(results.len(), 3);
    assert_eq!(results[0].dir, b"/a".to_vec());
    assert!(matches!(results[0].outcome, Outcome::Success));
    assert_eq!(results[1].dir, b"/b".to_vec());
    assert!(matches!(results[1].outcome, Outcome::TaskFailure));
    assert_eq!(results[2].dir, b"/c".to_vec());
    assert!(matches!(results[2].outcome, Outcome::ExitCode(1)));
}

#[test]
fn gate_bounds_held_permits() {
    let mut gate = Gate::new(2);
    assert!(gate.try_acquire());
    assert!(gate.try_acquire());
    assert!(!gate.try_acquire());
    assert_eq!(gate.active, 2);
    gate.release();
    assert!(gate.try_acquire());
    assert!(!gate.try_acquire());
    assert!(gate.active <= gate.capacity);
}

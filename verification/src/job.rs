//! One job's lifecycle and the scheduler's bookkeeping. Running the
//! command in one directory goes through fixed steps — allocate a pipe per
//! stream, spawn, wait, classify — and every decision between steps is
//! made here; the unverified edge only performs the pipe, spawn and wait
//! calls and reports what happened.

use vstd::prelude::*;
use crate::outcome::{spec_classify, JobResult, Outcome};

verus! {

/// Where a job stands in its lifecycle.
pub enum JobPhase {
    /// About to allocate the pipe pair for the child's standard output.
    AllocOutputPipe,
    /// About to allocate the pipe pair for the child's standard error.
    AllocErrorPipe,
    /// About to spawn the child in its directory, with both pipes bound.
    Spawn,
    /// The child runs, a tee drains each stream, and the job waits for the
    /// child to terminate.
    Wait,
    /// The job is over with this outcome.
    Done(Outcome),
}

/// What the unverified edge reports back for the step a phase asked for.
pub enum JobEvent {
    /// The requested pipe pair was allocated.
    PipeAllocated,
    /// Allocating the requested pipe pair failed with this error text.
    PipeFailed(Vec<u8>),
    /// The child was spawned.
    Spawned,
    /// Spawning the child failed with this error text.
    SpawnFailed(Vec<u8>),
    /// The child terminated with this exit code, or with this signal when
    /// there is no exit code.
    Exited(Option<i32>, Option<i32>),
    /// Waiting for the child failed with this error text.
    WaitFailed(Vec<u8>),
}

/// Which events can answer which phase. A terminated child reports an exit
/// code or a signal, never neither.
pub open spec fn phase_accepts(phase: JobPhase, event: JobEvent) -> bool {
    match phase {
        JobPhase::AllocOutputPipe | JobPhase::AllocErrorPipe => event matches
            JobEvent::PipeAllocated
            || event matches JobEvent::PipeFailed(_),
        JobPhase::Spawn => event matches JobEvent::Spawned || event matches JobEvent::SpawnFailed(
            _,
        ),
        JobPhase::Wait => match event {
            JobEvent::Exited(code, signal) => code is Some || signal is Some,
            JobEvent::WaitFailed(_) => true,
            _ => false,
        },
        JobPhase::Done(_) => false,
    }
}

/// The phase that follows a phase once its step's event is in: any setup
/// failure ends the job at once as an I/O error with no process spawned,
/// both pipes come before the spawn, and termination is classified.
pub open spec fn spec_step(phase: JobPhase, event: JobEvent) -> JobPhase {
    match event {
        JobEvent::PipeAllocated => if phase is AllocOutputPipe {
            JobPhase::AllocErrorPipe
        } else {
            JobPhase::Spawn
        },
        JobEvent::PipeFailed(m) => JobPhase::Done(Outcome::IOError(m)),
        JobEvent::Spawned => JobPhase::Wait,
        JobEvent::SpawnFailed(m) => JobPhase::Done(Outcome::IOError(m)),
        JobEvent::Exited(code, signal) => JobPhase::Done(spec_classify(code, signal)),
        JobEvent::WaitFailed(m) => JobPhase::Done(Outcome::IOError(m)),
    }
}

/// Advance a job by one step.
pub fn job_step(phase: JobPhase, event: JobEvent) -> (next: JobPhase)
    requires
        phase_accepts(phase, event),
    ensures
        next == spec_step(phase, event),
{
    match event {
        JobEvent::PipeAllocated => match phase {
            JobPhase::AllocOutputPipe => JobPhase::AllocErrorPipe,
            _ => JobPhase::Spawn,
        },
        JobEvent::PipeFailed(m) => JobPhase::Done(Outcome::IOError(m)),
        JobEvent::Spawned => JobPhase::Wait,
        JobEvent::SpawnFailed(m) => JobPhase::Done(Outcome::IOError(m)),
        JobEvent::Exited(code, signal) => match code {
            Some(0) => JobPhase::Done(Outcome::Success),
            Some(c) => JobPhase::Done(Outcome::ExitCode(c)),
            None => match signal {
                Some(s) => JobPhase::Done(Outcome::Signal(s)),
                None => JobPhase::Done(Outcome::TaskFailure),  // ruled out by the precondition
            },
        },
        JobEvent::WaitFailed(m) => JobPhase::Done(Outcome::IOError(m)),
    }
}

/// Pair every directory with what its task delivered. A task that died
/// without delivering an outcome yields a task failure in its slot, so no
/// directory's result is ever lost, and no directory is skipped.
pub fn collect_results(dirs: Vec<Vec<u8>>, delivered: Vec<Option<Outcome>>) -> (rs: Vec<JobResult>)
    requires
        dirs@.len() == delivered@.len(),
    ensures
        rs@.len() == dirs@.len(),
        forall|i: int|
            0 <= i < rs@.len() ==> (#[trigger] rs@[i]).dir == dirs@[i] && rs@[i].outcome == (
            match delivered@[i] {
                Some(o) => o,
                None => Outcome::TaskFailure,
            }),
{
    let ghost all_dirs = dirs@;
    let ghost all_delivered = delivered@;
    let mut dirs = dirs;
    let mut delivered = delivered;
    let mut reversed: Vec<JobResult> = Vec::new();
    while dirs.len() > 0
        invariant
            all_dirs.len() == all_delivered.len(),
            dirs@.len() == delivered@.len(),
            dirs@ == all_dirs.subrange(0, dirs@.len() as int),
            delivered@ == all_delivered.subrange(0, delivered@.len() as int),
            reversed@.len() + dirs@.len() == all_dirs.len(),
            forall|i: int|
                0 <= i < reversed@.len() ==> {
                    let k = all_dirs.len() - 1 - i;
                    (#[trigger] reversed@[i]).dir == all_dirs[k] && reversed@[i].outcome == (
                    match all_delivered[k] {
                        Some(o) => o,
                        None => Outcome::TaskFailure,
                    })
                },
        decreases dirs@.len(),
    {
        let ghost pre_dirs = dirs@;
        let ghost pre_delivered = delivered@;
        let ghost n = dirs@.len() as int;
        let d = dirs.pop().unwrap();
        let o = delivered.pop().unwrap();
        proof {
            assert(d == all_dirs[n - 1]);
            assert(o == all_delivered[n - 1]);
            assert(dirs@ == pre_dirs.subrange(0, n - 1));
            assert(dirs@ =~= all_dirs.subrange(0, n - 1));
            assert(delivered@ == pre_delivered.subrange(0, n - 1));
            assert(delivered@ =~= all_delivered.subrange(0, n - 1));
        }
        let ghost o_val = o;
        let outcome = match o {
            Some(o) => o,
            None => Outcome::TaskFailure,
        };
        proof {
            assert(outcome == match o_val {
                Some(v) => v,
                None => Outcome::TaskFailure,
            });
        }
        reversed.push(JobResult { dir: d, outcome });
    }
    let mut rs: Vec<JobResult> = Vec::new();
    while reversed.len() > 0
        invariant
            all_dirs.len() == all_delivered.len(),
            rs@.len() + reversed@.len() == all_dirs.len(),
            forall|i: int|
                0 <= i < reversed@.len() ==> {
                    let k = all_dirs.len() - 1 - i;
                    (#[trigger] reversed@[i]).dir == all_dirs[k] && reversed@[i].outcome == (
                    match all_delivered[k] {
                        Some(o) => o,
                        None => Outcome::TaskFailure,
                    })
                },
            forall|i: int|
                0 <= i < rs@.len() ==> (#[trigger] rs@[i]).dir == all_dirs[i] && rs@[i].outcome
                    == (match all_delivered[i] {
                    Some(o) => o,
                    None => Outcome::TaskFailure,
                }),
        decreases reversed@.len(),
    {
        let r = reversed.pop().unwrap();
        rs.push(r);
    }
    rs
}

} // verus!

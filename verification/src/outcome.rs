//! Outcome classification and result aggregation: how one job's termination
//! is classified, and how all per-directory outcomes are reduced to the
//! process-wide exit status and its diagnostic lines.

use vstd::prelude::*;
use crate::decimal::{dec_signed, fmt_i32};
use crate::tee::{line_for, render_line, NEWLINE};

verus! {

/// The terminal classification of one job.
pub enum Outcome {
    /// The child process ran and exited zero.
    Success,
    /// The child process exited with this non-zero code.
    ExitCode(i32),
    /// The child process was terminated by this signal.
    Signal(i32),
    /// Allocating a pipe, spawning, or waiting failed; the bytes are the
    /// error's text, without a trailing newline.
    IOError(Vec<u8>),
    /// The job's own control flow failed before it produced a result.
    TaskFailure,
}

/// One directory's result: the directory (used as the line prefix) and the
/// outcome of running the command there.
pub struct JobResult {
    /// The directory the command ran in, as raw path bytes.
    pub dir: Vec<u8>,
    /// What became of the command there.
    pub outcome: Outcome,
}

/// How a terminated child is classified: exit code zero is success, any
/// other exit code is reported as such, and a child without an exit code
/// was terminated by its signal.
pub open spec fn spec_classify(code: Option<i32>, signal: Option<i32>) -> Outcome {
    match code {
        Some(c) => if c == 0 {
            Outcome::Success
        } else {
            Outcome::ExitCode(c)
        },
        None => match signal {
            Some(s) => Outcome::Signal(s),
            None => Outcome::TaskFailure,
        },
    }
}

/// Classify what waiting for the child gave. An error while waiting is an
/// I/O failure; an exit code of zero is success; any other exit code, and
/// any terminating signal, is reported as such. A child that terminated
/// reports an exit code or a signal, so both absent is ruled out.
pub fn classify_wait(wait: Result<(Option<i32>, Option<i32>), Vec<u8>>) -> (o: Outcome)
    requires
        wait matches Ok((code, signal)) ==> code is Some || signal is Some,
    ensures
        match wait {
            Err(m) => o matches Outcome::IOError(b) && b@ == m@,
            Ok((code, signal)) => o == spec_classify(code, signal),
        },
{
    match wait {
        Err(m) => Outcome::IOError(m),
        Ok((code, signal)) => match code {
            Some(0) => Outcome::Success,
            Some(c) => Outcome::ExitCode(c),
            None => match signal {
                Some(s) => Outcome::Signal(s),
                None => Outcome::TaskFailure,  // ruled out by the precondition
            },
        },
    }
}

/// The bytes of "exited ".
pub open spec fn exited_prefix() -> Seq<u8> {
    seq![
        ('e' as u8),
        ('x' as u8),
        ('i' as u8),
        ('t' as u8),
        ('e' as u8),
        ('d' as u8),
        (' ' as u8),
    ]
}

/// The bytes of "signaled ".
pub open spec fn signaled_prefix() -> Seq<u8> {
    seq![
        ('s' as u8),
        ('i' as u8),
        ('g' as u8),
        ('n' as u8),
        ('a' as u8),
        ('l' as u8),
        ('e' as u8),
        ('d' as u8),
        (' ' as u8),
    ]
}

/// The bytes of "failed" and a newline.
pub open spec fn failed_message() -> Seq<u8> {
    seq![('f' as u8), ('a' as u8), ('i' as u8), ('l' as u8), ('e' as u8), ('d' as u8), NEWLINE]
}

/// Whether an outcome counts as a failure of its job.
pub open spec fn is_failure(o: Outcome) -> bool {
    !(o is Success)
}

/// The diagnostic payload reported for a non-success outcome, newline
/// included.
pub open spec fn spec_message(o: Outcome) -> Seq<u8> {
    match o {
        Outcome::Success => Seq::<u8>::empty(),
        Outcome::ExitCode(c) => exited_prefix() + dec_signed(c as int) + seq![NEWLINE],
        Outcome::Signal(s) => signaled_prefix() + dec_signed(s as int) + seq![NEWLINE],
        Outcome::IOError(m) => m@ + seq![NEWLINE],
        Outcome::TaskFailure => failed_message(),
    }
}

/// The full diagnostic line for one failed job: its directory prefix, the
/// separator, then the payload.
pub open spec fn diag_line(r: JobResult) -> Seq<u8> {
    line_for(r.dir@, spec_message(r.outcome))
}

/// The diagnostic payload for an outcome: nothing for success, the
/// rendered message otherwise.
pub fn outcome_message(o: &Outcome) -> (r: Option<Vec<u8>>)
    ensures
        o is Success <==> r is None,
        r matches Some(m) ==> m@ == spec_message(*o),
{
    match o {
        Outcome::Success => None,
        Outcome::ExitCode(c) => {
            let mut m: Vec<u8> = Vec::new();
            m.push('e' as u8);
            m.push('x' as u8);
            m.push('i' as u8);
            m.push('t' as u8);
            m.push('e' as u8);
            m.push('d' as u8);
            m.push(' ' as u8);
            let digits = fmt_i32(*c);
            m.extend_from_slice(digits.as_slice());
            m.push(NEWLINE);
            proof {
                assert(m@ =~= exited_prefix() + dec_signed(*c as int) + seq![NEWLINE]);
            }
            Some(m)
        },
        Outcome::Signal(s) => {
            let mut m: Vec<u8> = Vec::new();
            m.push('s' as u8);
            m.push('i' as u8);
            m.push('g' as u8);
            m.push('n' as u8);
            m.push('a' as u8);
            m.push('l' as u8);
            m.push('e' as u8);
            m.push('d' as u8);
            m.push(' ' as u8);
            let digits = fmt_i32(*s);
            m.extend_from_slice(digits.as_slice());
            m.push(NEWLINE);
            proof {
                assert(m@ =~= signaled_prefix() + dec_signed(*s as int) + seq![NEWLINE]);
            }
            Some(m)
        },
        Outcome::IOError(msg) => {
            let mut m: Vec<u8> = Vec::new();
            m.extend_from_slice(msg.as_slice());
            m.push(NEWLINE);
            proof {
                assert(m@ =~= msg@ + seq![NEWLINE]);
            }
            Some(m)
        },
        Outcome::TaskFailure => {
            let mut m: Vec<u8> = Vec::new();
            m.push('f' as u8);
            m.push('a' as u8);
            m.push('i' as u8);
            m.push('l' as u8);
            m.push('e' as u8);
            m.push('d' as u8);
            m.push(NEWLINE);
            proof {
                assert(m@ =~= failed_message());
            }
            Some(m)
        },
    }
}

/// How many of the results are failures.
pub open spec fn failure_count(rs: Seq<JobResult>) -> nat
    decreases rs.len(),
{
    if rs.len() == 0 {
        0
    } else {
        failure_count(rs.drop_last()) + if is_failure(rs.last().outcome) {
            1nat
        } else {
            0nat
        }
    }
}

/// The diagnostic lines of a batch, one per failing result, in order.
pub open spec fn spec_diagnostics(rs: Seq<JobResult>) -> Seq<Seq<u8>>
    decreases rs.len(),
{
    if rs.len() == 0 {
        Seq::<Seq<u8>>::empty()
    } else if is_failure(rs.last().outcome) {
        spec_diagnostics(rs.drop_last()).push(diag_line(rs.last()))
    } else {
        spec_diagnostics(rs.drop_last())
    }
}

/// The process-wide exit status of a batch: one exactly when some job
/// failed.
pub open spec fn spec_exit_code(rs: Seq<JobResult>) -> i32 {
    if failure_count(rs) == 0 {
        0
    } else {
        1
    }
}

/// The reduction of a whole batch: its exit status and the diagnostic
/// lines to print, in batch order.
pub struct Summary {
    /// Zero when every job succeeded, one otherwise.
    pub exit_code: i32,
    /// One rendered line per failing job, directory prefix included.
    pub diagnostics: Vec<Vec<u8>>,
}

/// Reduce every per-directory result to the process exit status and the
/// diagnostic lines for the failures, one line per failing directory, in
/// the order the results stand in.
pub fn aggregate(results: &Vec<JobResult>) -> (s: Summary)
    ensures
        s.exit_code == spec_exit_code(results@),
        s.diagnostics@.map_values(|l: Vec<u8>| l@) == spec_diagnostics(results@),
{
    let mut diagnostics: Vec<Vec<u8>> = Vec::new();
    let mut any_failure = false;
    let mut i: usize = 0;
    proof {
        assert(results@.subrange(0, 0) =~= Seq::<JobResult>::empty());
        assert(diagnostics@.map_values(|l: Vec<u8>| l@) =~= Seq::<Seq<u8>>::empty());
    }
    while i < results.len()
        invariant
            i <= results@.len(),
            any_failure == (failure_count(results@.subrange(0, i as int)) > 0),
            diagnostics@.map_values(|l: Vec<u8>| l@) == spec_diagnostics(
                results@.subrange(0, i as int),
            ),
        decreases results@.len() - i,
    {
        let ghost prev = diagnostics@.map_values(|l: Vec<u8>| l@);
        let r = &results[i];
        match outcome_message(&r.outcome) {
            None => {
            },
            Some(payload) => {
                let line = render_line(r.dir.as_slice(), payload.as_slice());
                proof {
                    assert(line@ == diag_line(results@[i as int]));
                }
                diagnostics.push(line);
                any_failure = true;
                proof {
                    assert(diagnostics@.map_values(|l: Vec<u8>| l@) =~= prev.push(
                        diag_line(results@[i as int]),
                    ));
                }
            },
        }
        i = i + 1;
        proof {
            assert(results@.subrange(0, i as int).drop_last() =~= results@.subrange(0, i - 1));
            assert(results@.subrange(0, i as int).last() == results@[i - 1]);
        }
    }
    proof {
        assert(results@.subrange(0, i as int) =~= results@);
    }
    Summary { exit_code: if any_failure { 1 } else { 0 }, diagnostics }
}

/// Law: in a batch where every job succeeded, the exit status is zero and
/// no diagnostic lines appear.
pub proof fn lemma_all_success(rs: Seq<JobResult>)
    requires
        forall|i: int| 0 <= i < rs.len() ==> (#[trigger] rs[i].outcome) is Success,
    ensures
        spec_exit_code(rs) == 0,
        spec_diagnostics(rs) == Seq::<Seq<u8>>::empty(),
    decreases rs.len(),
{
    if rs.len() > 0 {
        lemma_all_success(rs.drop_last());
    }
}

/// Law: a batch with K failing jobs yields exactly K diagnostic lines, and
/// the exit status is one exactly when K is positive.
pub proof fn lemma_failure_diagnostics(rs: Seq<JobResult>)
    ensures
        spec_diagnostics(rs).len() == failure_count(rs),
        spec_exit_code(rs) == 1 <==> failure_count(rs) > 0,
    decreases rs.len(),
{
    if rs.len() > 0 {
        lemma_failure_diagnostics(rs.drop_last());
    }
}

/// Law: when exactly one job failed, the batch yields exit status one and
/// exactly that one job's diagnostic line; the successes stay silent.
pub proof fn lemma_single_failure(rs: Seq<JobResult>, k: int)
    requires
        0 <= k < rs.len(),
        is_failure(rs[k].outcome),
        forall|i: int| 0 <= i < rs.len() && i != k ==> (#[trigger] rs[i].outcome) is Success,
    ensures
        spec_exit_code(rs) == 1,
        spec_diagnostics(rs) == seq![diag_line(rs[k])],
    decreases rs.len(),
{
    if k == rs.len() - 1 {
        lemma_all_success(rs.drop_last());
        assert(spec_diagnostics(rs) =~= seq![diag_line(rs[k])]);
    } else {
        lemma_single_failure(rs.drop_last(), k);
    }
}

/// Removing one result removes exactly its own contribution to the failure
/// count and to the multiset of diagnostic lines.
proof fn lemma_remove_one(rs: Seq<JobResult>, j: int)
    requires
        0 <= j < rs.len(),
    ensures
        failure_count(rs) == failure_count(rs.remove(j)) + if is_failure(rs[j].outcome) {
            1nat
        } else {
            0nat
        },
        spec_diagnostics(rs).to_multiset() == if is_failure(rs[j].outcome) {
            spec_diagnostics(rs.remove(j)).to_multiset().insert(diag_line(rs[j]))
        } else {
            spec_diagnostics(rs.remove(j)).to_multiset()
        },
    decreases rs.len(),
{
    broadcast use vstd::seq_lib::group_to_multiset_ensures;

    if j == rs.len() - 1 {
        assert(rs.remove(j) =~= rs.drop_last());
    } else {
        let inner = rs.drop_last();
        lemma_remove_one(inner, j);
        assert(rs.remove(j).drop_last() =~= inner.remove(j));
        assert(rs.remove(j).last() == rs.last());
        if is_failure(rs.last().outcome) {
            assert(spec_diagnostics(rs) == spec_diagnostics(inner).push(diag_line(rs.last())));
            assert(spec_diagnostics(rs.remove(j)) == spec_diagnostics(inner.remove(j)).push(
                diag_line(rs.last()),
            ));
            if is_failure(rs[j].outcome) {
                assert(spec_diagnostics(rs).to_multiset() =~= spec_diagnostics(
                    rs.remove(j),
                ).to_multiset().insert(diag_line(rs[j])));
            }
        }
    }
}

/// Law: the aggregate exit status, the number of failures, and the
/// multiset of diagnostic lines depend only on which results arrived, not
/// on the order they arrived in.
pub proof fn lemma_order_insensitive(a: Seq<JobResult>, b: Seq<JobResult>)
    requires
        a.to_multiset() == b.to_multiset(),
    ensures
        spec_exit_code(a) == spec_exit_code(b),
        failure_count(a) == failure_count(b),
        spec_diagnostics(a).to_multiset() == spec_diagnostics(b).to_multiset(),
    decreases a.len(),
{
    broadcast use vstd::seq_lib::group_to_multiset_ensures;

    if a.len() == 0 {
        assert(a.to_multiset().len() == a.len());
        assert(b.to_multiset().len() == b.len());
    } else {
        let x = a.last();
        assert(a.contains(x));
        assert(b.to_multiset().count(x) > 0);
        assert(b.contains(x));
        let j = choose|j: int| 0 <= j < b.len() && b[j] == x;
        let b2 = b.remove(j);
        assert(a.drop_last().push(x) =~= a);
        assert(a.drop_last().to_multiset().insert(x) == a.to_multiset());
        assert(b2.to_multiset() == b.to_multiset().remove(x));
        assert(a.drop_last().to_multiset() =~= b2.to_multiset());
        lemma_order_insensitive(a.drop_last(), b2);
        lemma_remove_one(b, j);
        if is_failure(x.outcome) {
            assert(spec_diagnostics(a).to_multiset() == spec_diagnostics(
                a.drop_last(),
            ).to_multiset().insert(diag_line(x)));
        }
    }
}

} // verus!

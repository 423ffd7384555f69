//! The execution engine's decisions. The engine walks the execute queue
//! front to back: a queue entry with no registered command is skipped
//! silently, an entry with one hands its command out to be run. What a
//! finished process's outcome means — success or failure, and which
//! captured stream is worth showing — is decided here as well. No outcome
//! ever stops the walk: failures are reported, never propagated.

use vstd::prelude::*;
use std::collections::VecDeque;
use crate::resolve::{CommandRegistry, CommandSpec, CommandSpecView};

verus! {

broadcast use crate::text::lemma_bytes_deep_view;

/// Position of the first queue entry that names a registered command.
pub open spec fn first_known(q: Seq<Seq<u8>>, reg: Map<Seq<u8>, CommandSpecView>) -> Option<int>
    decreases q.len(),
{
    if q.len() == 0 {
        None
    } else if reg.contains_key(q[0]) {
        Some(0int)
    } else {
        match first_known(q.drop_first(), reg) {
            None => None,
            Some(i) => Some(i + 1),
        }
    }
}

/// A position naming a registered command, with none before it, is what
/// `first_known` returns.
pub proof fn lemma_first_known_at(q: Seq<Seq<u8>>, reg: Map<Seq<u8>, CommandSpecView>, i: int)
    requires
        0 <= i < q.len(),
        reg.contains_key(q[i]),
        forall|j: int| 0 <= j < i ==> !reg.contains_key(q[j]),
    ensures
        first_known(q, reg) == Some(i),
    decreases i,
{
    if i > 0 {
        lemma_first_known_at(q.drop_first(), reg, i - 1);
    }
}

/// A queue none of whose entries is registered has no first known entry.
pub proof fn lemma_first_known_none(q: Seq<Seq<u8>>, reg: Map<Seq<u8>, CommandSpecView>)
    requires
        forall|j: int| 0 <= j < q.len() ==> !reg.contains_key(q[j]),
    ensures
        first_known(q, reg) is None,
    decreases q.len(),
{
    if q.len() > 0 {
        assert(!reg.contains_key(q[0]));
        assert(forall|j: int|
            0 <= j < q.drop_first().len() ==> q.drop_first()[j] == q[j + 1]);
        lemma_first_known_none(q.drop_first(), reg);
    }
}

/// The names that a walk over the queue will run, in order: the queue with
/// every entry dropped that names no registered command.
pub open spec fn run_plan(q: Seq<Seq<u8>>, reg: Map<Seq<u8>, CommandSpecView>) -> Seq<Seq<u8>>
    decreases q.len(),
{
    if q.len() == 0 {
        Seq::empty()
    } else if reg.contains_key(q[0]) {
        seq![q[0]] + run_plan(q.drop_first(), reg)
    } else {
        run_plan(q.drop_first(), reg)
    }
}

/// The run plan starts at the first known entry and continues with the
/// plan of what follows it; without a known entry the plan is empty.
pub proof fn lemma_first_known_plan(q: Seq<Seq<u8>>, reg: Map<Seq<u8>, CommandSpecView>)
    ensures
        match first_known(q, reg) {
            None => run_plan(q, reg) == Seq::<Seq<u8>>::empty(),
            Some(i) => {
                &&& 0 <= i < q.len()
                &&& reg.contains_key(q[i])
                &&& forall|j: int| 0 <= j < i ==> !reg.contains_key(q[j])
                &&& run_plan(q, reg) == seq![q[i]] + run_plan(q.skip(i + 1), reg)
            },
        },
    decreases q.len(),
{
    if q.len() > 0 {
        if reg.contains_key(q[0]) {
            assert(q.skip(1) =~= q.drop_first());
        } else {
            lemma_first_known_plan(q.drop_first(), reg);
            match first_known(q.drop_first(), reg) {
                None => {},
                Some(i) => {
                    assert(q.drop_first()[i] == q[i + 1]);
                    assert forall|j: int| 0 <= j < i + 1 implies !reg.contains_key(q[j]) by {
                        if j > 0 {
                            assert(!reg.contains_key(q.drop_first()[j - 1]));
                        }
                    }
                    assert(q.drop_first().skip(i + 1) =~= q.skip(i + 2));
                },
            }
        }
    }
}

/// A queue entry naming no registered command changes nothing: the run
/// plan with it is the run plan without it.
pub proof fn lemma_unknown_entry_skipped(
    before: Seq<Seq<u8>>,
    unknown: Seq<u8>,
    after: Seq<Seq<u8>>,
    reg: Map<Seq<u8>, CommandSpecView>,
)
    requires
        !reg.contains_key(unknown),
    ensures
        run_plan(before + seq![unknown] + after, reg) == run_plan(before + after, reg),
    decreases before.len(),
{
    if before.len() == 0 {
        assert(before + seq![unknown] + after =~= seq![unknown] + after);
        assert((seq![unknown] + after)[0] == unknown);
        assert((seq![unknown] + after).drop_first() =~= after);
        assert(before + after =~= after);
    } else {
        let whole = before + seq![unknown] + after;
        let merged = before + after;
        assert(whole[0] == before[0]);
        assert(merged[0] == before[0]);
        assert(whole.drop_first() =~= before.drop_first() + seq![unknown] + after);
        assert(merged.drop_first() =~= before.drop_first() + after);
        lemma_unknown_entry_skipped(before.drop_first(), unknown, after, reg);
    }
}

/// Pops queue entries until one names a registered command, returning the
/// task name and a copy of its command; entries without a command are
/// skipped without a trace. `None` means the rest of the queue named
/// nothing runnable, and the queue is spent.
pub fn next_runnable(queue: &mut VecDeque<Vec<u8>>, registry: &CommandRegistry) -> (r: Option<
    (Vec<u8>, CommandSpec),
>)
    requires
        registry.well_formed(),
    ensures
        match r {
            None => first_known(old(queue).deep_view(), registry@) is None
                && final(queue)@.len() == 0,
            Some(p) => match first_known(old(queue).deep_view(), registry@) {
                Some(i) => {
                    &&& p.0@ == old(queue).deep_view()[i]
                    &&& registry@.contains_key(p.0@)
                    &&& p.1@ == registry@[p.0@]
                    &&& final(queue).deep_view() == old(queue).deep_view().skip(i + 1)
                },
                None => false,
            },
        },
{
    let ghost q0 = queue.deep_view();
    let ghost mut k: int = 0;
    proof {
        assert(queue.deep_view() =~= q0.skip(0));
    }
    while queue.len() != 0
        invariant
            registry.well_formed(),
            q0 == old(queue).deep_view(),
            0 <= k <= q0.len(),
            queue.deep_view() == q0.skip(k),
            forall|j: int| 0 <= j < k ==> !registry@.contains_key(q0[j]),
        decreases q0.len() - k,
    {
        let ghost qpre = queue.deep_view();
        let ghost qpre_raw = queue@;
        proof {
            assert(qpre.len() == q0.len() - k);
            assert(k < q0.len());
        }
        let name = match queue.pop_front() {
            Some(name) => name,
            None => {
                proof {
                    assert(false);
                }
                return None;
            },
        };
        proof {
            assert(name@ == qpre[0]);
            assert(qpre[0] == q0.skip(k)[0]);
            assert(q0.skip(k)[0] == q0[k]);
            assert forall|l: int| 0 <= l < queue@.len() implies queue.deep_view()[l] == q0.skip(
                k + 1,
            )[l] by {
                assert(queue@[l] == qpre_raw[l + 1]);
                assert(qpre[l + 1] == qpre_raw[l + 1]@);
                assert(qpre[l + 1] == q0.skip(k)[l + 1]);
                assert(q0.skip(k)[l + 1] == q0[k + 1 + l]);
                assert(q0.skip(k + 1)[l] == q0[k + 1 + l]);
            }
            assert(queue.deep_view() =~= q0.skip(k + 1));
        }
        match registry.get(name.as_slice()) {
            Some(cs) => {
                let cs_copy = cs.duplicate();
                proof {
                    lemma_first_known_at(q0, registry@, k);
                }
                return Some((name, cs_copy));
            },
            None => {
                proof {
                    k = k + 1;
                }
            },
        }
    }
    proof {
        assert(q0.skip(k).len() == 0);
        assert(k == q0.len());
        lemma_first_known_none(q0, registry@);
    }
    None
}

/// A process outcome as it is reported: the task finished, the task
/// failed, or its process could not be started at all. The payload is the
/// captured text worth showing, when there is any.
pub enum TaskOutcome {
    Finished { output: Option<Vec<u8>> },
    Failed { output: Option<Vec<u8>> },
    SpawnFailed { error: Vec<u8> },
}

/// What the engine reports about one queue entry that was run.
pub struct TaskReport {
    pub task_name: Vec<u8>,
    pub outcome: TaskOutcome,
}

/// The mathematical value of a `TaskOutcome`.
pub enum TaskOutcomeView {
    Finished { output: Option<Seq<u8>> },
    Failed { output: Option<Seq<u8>> },
    SpawnFailed { error: Seq<u8> },
}

/// The mathematical value of a `TaskReport`.
pub struct TaskReportView {
    pub task_name: Seq<u8>,
    pub outcome: TaskOutcomeView,
}

impl View for TaskOutcome {
    type V = TaskOutcomeView;

    open spec fn view(&self) -> TaskOutcomeView {
        match self {
            TaskOutcome::Finished { output } => TaskOutcomeView::Finished {
                output: output.deep_view(),
            },
            TaskOutcome::Failed { output } => TaskOutcomeView::Failed {
                output: output.deep_view(),
            },
            TaskOutcome::SpawnFailed { error } => TaskOutcomeView::SpawnFailed { error: error@ },
        }
    }
}

impl View for TaskReport {
    type V = TaskReportView;

    open spec fn view(&self) -> TaskReportView {
        TaskReportView { task_name: self.task_name@, outcome: self.outcome@ }
    }
}

/// Captured output is shown only when it is non-empty and valid text.
pub open spec fn displayable(bytes: Seq<u8>) -> Option<Seq<u8>> {
    if bytes.len() > 0 && vstd::utf8::valid_utf8(bytes) {
        Some(bytes)
    } else {
        None
    }
}

/// The report owed for a process that ran to completion: success shows the
/// captured standard output, failure the captured standard error.
pub open spec fn report_spec(
    name: Seq<u8>,
    exit_success: bool,
    stdout: Seq<u8>,
    stderr: Seq<u8>,
) -> TaskReportView {
    TaskReportView {
        task_name: name,
        outcome: if exit_success {
            TaskOutcomeView::Finished { output: displayable(stdout) }
        } else {
            TaskOutcomeView::Failed { output: displayable(stderr) }
        },
    }
}

/// A completed process is reported as failed exactly when its exit status
/// was not success; the report never carries any instruction to stop.
pub proof fn lemma_exit_status_decides(
    name: Seq<u8>,
    exit_success: bool,
    stdout: Seq<u8>,
    stderr: Seq<u8>,
)
    ensures
        report_spec(name, exit_success, stdout, stderr).outcome is Failed <==> !exit_success,
        report_spec(name, exit_success, stdout, stderr).outcome is Finished <==> exit_success,
{
}

/// Relies on core::str::from_utf8: it returns `Ok` exactly when the bytes
/// are valid UTF-8.
#[verifier::external_body]
fn is_valid_text(bytes: &[u8]) -> (r: bool)
    ensures
        r == vstd::utf8::valid_utf8(bytes@),
{
    core::str::from_utf8(bytes).is_ok()
}

fn display_filter(bytes: Vec<u8>) -> (r: Option<Vec<u8>>)
    ensures
        match r {
            Some(b) => displayable(bytes@) == Some(b@),
            None => displayable(bytes@) is None,
        },
{
    if bytes.len() > 0 && is_valid_text(bytes.as_slice()) {
        Some(bytes)
    } else {
        None
    }
}

/// Turns a completed process's exit status and captured streams into the
/// report owed for it.
pub fn classify_outcome(
    task_name: Vec<u8>,
    exit_success: bool,
    stdout: Vec<u8>,
    stderr: Vec<u8>,
) -> (r: TaskReport)
    ensures
        r@ == report_spec(task_name@, exit_success, stdout@, stderr@),
{
    if exit_success {
        TaskReport { task_name, outcome: TaskOutcome::Finished { output: display_filter(stdout) } }
    } else {
        TaskReport { task_name, outcome: TaskOutcome::Failed { output: display_filter(stderr) } }
    }
}

/// The report owed for a process that could not be started: the failure is
/// reported with the underlying error text, and the walk goes on.
pub fn spawn_failure_report(task_name: Vec<u8>, error: Vec<u8>) -> (r: TaskReport)
    ensures
        r@ == (TaskReportView {
            task_name: task_name@,
            outcome: TaskOutcomeView::SpawnFailed { error: error@ },
        }),
{
    TaskReport { task_name, outcome: TaskOutcome::SpawnFailed { error } }
}

} // verus!

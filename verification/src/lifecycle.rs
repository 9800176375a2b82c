//! The life of a running task: where it stands, what its owner's control
//! messages and the outcomes of its statements make of that, and what the
//! one who drives it has to do next.
//!
//! A task starts running. A pause suspends it until a resume; a cancellation
//! or a rollback ends it from either state, and so does the end of its body.
//! A state in which it has ended is never left.

use vstd::prelude::*;
use crate::task::TaskControl;

verus! {

/// The state of a task.
#[derive(Clone, Copy, Debug, PartialEq, Eq, Structural)]
pub enum TaskState {
    Running,
    Suspended,
    Finished,
    Canceled,
    Rolledback,
}

/// Where a task stands.
#[derive(Clone, Copy, Debug, PartialEq, Eq, Structural)]
pub struct TaskProgress {
    pub state: TaskState,
    /// The index of the body's statement that runs next.
    pub next: usize,
    /// How often the body has been begun again after a failure.
    pub retries_used: u64,
}

/// What a task's annotations allow after a failure.
#[derive(Clone, Copy, Debug, PartialEq, Eq, Structural)]
pub struct TaskPolicy {
    /// How often the body may be begun again.
    pub retry: u64,
    /// Whether a degradation stands in for a body that cannot complete.
    pub has_degradation: bool,
}

/// How a statement of the body came out.
#[derive(Clone, Copy, Debug, PartialEq, Eq, Structural)]
pub enum Outcome {
    /// It ran; the next statement follows.
    Advanced,
    /// It ended the body with a result.
    Returned,
    /// The body signalled a failure, which a retry may mend.
    Failed,
    /// The statement broke a rule of the language, which no retry mends.
    Fatal,
}

/// What the one who drives the task has to do next.
#[derive(Clone, Copy, Debug, PartialEq, Eq, Structural)]
pub enum Directive {
    /// Run the statement of this index, and come back with its outcome.
    Run(usize),
    /// The task is suspended now: evaluate its pause annotation, if any.
    Pause,
    /// The task runs again: evaluate its resume annotation, if any.
    Resume,
    /// The task is suspended: yield until a control message may have come.
    Wait,
    /// Look for the next control message.
    Poll,
    /// Begin the body again, in a fresh scope, and drop the control
    /// messages that are waiting.
    Restart,
    /// Report a finish with the result of the body.
    Finish,
    /// Report a finish with the value of the degradation annotation.
    Degrade,
    /// Report a finish with the failure as its value.
    Surface,
    /// Report a cancellation.
    Cancel,
    /// Evaluate the rollback annotation, if any, and report a rollback.
    Rollback,
    /// The task has ended: there is nothing left to do.
    Stay,
}

impl TaskProgress {
    /// A task that has just been spawned.
    pub open spec fn start() -> TaskProgress {
        TaskProgress { state: TaskState::Running, next: 0, retries_used: 0 }
    }

    /// The task has finished, was cancelled or was rolled back.
    pub open spec fn ended(self) -> bool {
        self.state is Finished || self.state is Canceled || self.state is Rolledback
    }

    /// How often the body has been begun.
    pub open spec fn attempts(self) -> nat {
        (self.retries_used + 1) as nat
    }

    /// The same, in another state.
    pub open spec fn in_state(self, state: TaskState) -> TaskProgress {
        TaskProgress { state, next: self.next, retries_used: self.retries_used }
    }

    /// What becomes of the task at a statement boundary, where it has
    /// looked for a control message and found `control`, or none.
    pub open spec fn observed(self, body_len: usize, control: Option<TaskControl>) -> (
        TaskProgress,
        Directive,
    ) {
        match self.state {
            TaskState::Running => match control {
                None => if self.next < body_len {
                    (self, Directive::Run(self.next))
                } else {
                    (self.in_state(TaskState::Finished), Directive::Finish)
                },
                Some(TaskControl::Pause) => (self.in_state(TaskState::Suspended), Directive::Pause),
                Some(TaskControl::Resume) => (self, Directive::Poll),
                Some(TaskControl::Cancel) => (self.in_state(TaskState::Canceled), Directive::Cancel),
                Some(TaskControl::Rollback) => (
                    self.in_state(TaskState::Rolledback),
                    Directive::Rollback,
                ),
            },
            TaskState::Suspended => match control {
                None => (self, Directive::Wait),
                Some(TaskControl::Pause) => (self, Directive::Wait),
                Some(TaskControl::Resume) => (self.in_state(TaskState::Running), Directive::Resume),
                Some(TaskControl::Cancel) => (self.in_state(TaskState::Canceled), Directive::Cancel),
                Some(TaskControl::Rollback) => (
                    self.in_state(TaskState::Rolledback),
                    Directive::Rollback,
                ),
            },
            _ => (self, Directive::Stay),
        }
    }

    /// What becomes of the task when the statement that it was told to run
    /// has come out as `outcome`.
    pub open spec fn completed(self, policy: TaskPolicy, outcome: Outcome) -> (
        TaskProgress,
        Directive,
    ) {
        if !(self.state is Running) {
            (self, Directive::Stay)
        } else {
            match outcome {
                Outcome::Advanced => (
                    TaskProgress {
                        state: self.state,
                        next: if self.next < usize::MAX {
                            (self.next + 1) as usize
                        } else {
                            self.next
                        },
                        retries_used: self.retries_used,
                    },
                    Directive::Poll,
                ),
                Outcome::Returned => (self.in_state(TaskState::Finished), Directive::Finish),
                Outcome::Failed => if self.retries_used < policy.retry {
                    (
                        TaskProgress {
                            state: TaskState::Running,
                            next: 0,
                            retries_used: (self.retries_used + 1) as u64,
                        },
                        Directive::Restart,
                    )
                } else {
                    (self.in_state(TaskState::Finished), policy.last_resort())
                },
                Outcome::Fatal => (self.in_state(TaskState::Finished), policy.last_resort()),
            }
        }
    }

    /// A task that has just been spawned.
    pub fn new() -> (p: TaskProgress)
        ensures
            p == TaskProgress::start(),
    {
        TaskProgress { state: TaskState::Running, next: 0, retries_used: 0 }
    }

    /// Whether the task has ended.
    pub fn has_ended(&self) -> (ended: bool)
        ensures
            ended == self.ended(),
    {
        match self.state {
            TaskState::Running => false,
            TaskState::Suspended => false,
            _ => true,
        }
    }

    fn with_state(&self, state: TaskState) -> (p: TaskProgress)
        ensures
            p == self.in_state(state),
    {
        TaskProgress { state, next: self.next, retries_used: self.retries_used }
    }

    /// Decides at a statement boundary, on the control message found.
    pub fn on_control(&self, body_len: usize, control: Option<TaskControl>) -> (r: (
        TaskProgress,
        Directive,
    ))
        ensures
            r == self.observed(body_len, control),
    {
        match self.state {
            TaskState::Running => match control {
                None => if self.next < body_len {
                    (*self, Directive::Run(self.next))
                } else {
                    (self.with_state(TaskState::Finished), Directive::Finish)
                },
                Some(TaskControl::Pause) => (self.with_state(TaskState::Suspended), Directive::Pause),
                Some(TaskControl::Resume) => (*self, Directive::Poll),
                Some(TaskControl::Cancel) => (self.with_state(TaskState::Canceled), Directive::Cancel),
                Some(TaskControl::Rollback) => (
                    self.with_state(TaskState::Rolledback),
                    Directive::Rollback,
                ),
            },
            TaskState::Suspended => match control {
                None => (*self, Directive::Wait),
                Some(TaskControl::Pause) => (*self, Directive::Wait),
                Some(TaskControl::Resume) => (self.with_state(TaskState::Running), Directive::Resume),
                Some(TaskControl::Cancel) => (self.with_state(TaskState::Canceled), Directive::Cancel),
                Some(TaskControl::Rollback) => (
                    self.with_state(TaskState::Rolledback),
                    Directive::Rollback,
                ),
            },
            _ => (*self, Directive::Stay),
        }
    }

    /// Decides on the outcome of the statement that was run.
    pub fn on_outcome(&self, policy: TaskPolicy, outcome: Outcome) -> (r: (TaskProgress, Directive))
        ensures
            r == self.completed(policy, outcome),
    {
        match self.state {
            TaskState::Running => match outcome {
                Outcome::Advanced => (
                    TaskProgress {
                        state: self.state,
                        next: if self.next < usize::MAX {
                            self.next + 1
                        } else {
                            self.next
                        },
                        retries_used: self.retries_used,
                    },
                    Directive::Poll,
                ),
                Outcome::Returned => (self.with_state(TaskState::Finished), Directive::Finish),
                Outcome::Failed => if self.retries_used < policy.retry {
                    (
                        TaskProgress {
                            state: TaskState::Running,
                            next: 0,
                            retries_used: self.retries_used + 1,
                        },
                        Directive::Restart,
                    )
                } else {
                    (self.with_state(TaskState::Finished), policy.fall_back())
                },
                Outcome::Fatal => (self.with_state(TaskState::Finished), policy.fall_back()),
            },
            _ => (*self, Directive::Stay),
        }
    }
}

impl TaskPolicy {
    /// What is left when the body cannot complete: the degradation, if the
    /// task has one, and else the failure itself.
    pub open spec fn last_resort(self) -> Directive {
        if self.has_degradation {
            Directive::Degrade
        } else {
            Directive::Surface
        }
    }

    pub fn fall_back(&self) -> (d: Directive)
        ensures
            d == self.last_resort(),
    {
        if self.has_degradation {
            Directive::Degrade
        } else {
            Directive::Surface
        }
    }
}

/// The task after it has looked for control messages at one statement
/// boundary after the other and found `controls`, in that order, and what
/// it was told to do each time. No statement completes in between.
pub open spec fn observed_all(p: TaskProgress, body_len: usize, controls: Seq<Option<TaskControl>>)
    -> (TaskProgress, Seq<Directive>)
    decreases controls.len(),
{
    if controls.len() == 0 {
        (p, Seq::empty())
    } else {
        let before = observed_all(p, body_len, controls.drop_last());
        let step = before.0.observed(body_len, controls.last());
        (step.0, before.1.push(step.1))
    }
}

/// The task after its body has failed `failures` times, one attempt after
/// the other, and what it was told to do at the last failure.
pub open spec fn failed_times(policy: TaskPolicy, failures: nat) -> (TaskProgress, Directive)
    decreases failures,
{
    if failures == 0 {
        (TaskProgress::start(), Directive::Poll)
    } else {
        failed_times(policy, (failures - 1) as nat).0.completed(policy, Outcome::Failed)
    }
}

/// A task that has ended stays as it is, whatever is observed and whatever
/// is said to have completed: no transition leaves a final state.
pub proof fn lemma_ended_is_final(
    p: TaskProgress,
    policy: TaskPolicy,
    body_len: usize,
    control: Option<TaskControl>,
    outcome: Outcome,
)
    requires
        p.ended(),
    ensures
        p.observed(body_len, control) == (p, Directive::Stay),
        p.completed(policy, outcome) == (p, Directive::Stay),
{
}

/// A statement is run only by a running task that found no control
/// message, and it is the statement that is next.
pub proof fn lemma_run_only_while_running(
    p: TaskProgress,
    body_len: usize,
    control: Option<TaskControl>,
)
    ensures
        p.observed(body_len, control).1 is Run ==> p.state is Running && control is None
            && p.observed(body_len, control).1 == Directive::Run(p.next) && p.observed(
            body_len,
            control,
        ).0 == p,
{
}

/// Between a pause and the resume that follows it no statement runs: a
/// running task that observes a pause, then any number of times nothing or
/// another pause, and then a resume, is told to run nothing in all that
/// time, and is running again afterwards, at the statement at which it was
/// paused. What it is told next, if no further message has come, is to run
/// that statement.
pub proof fn lemma_pause_holds_until_resume(
    p: TaskProgress,
    body_len: usize,
    waits: Seq<Option<TaskControl>>,
)
    requires
        p.state is Running,
        forall|i: int|
            0 <= i < waits.len() ==> (#[trigger] waits[i]) is None || waits[i] == Some(
                TaskControl::Pause,
            ),
    ensures
        ({
            let controls = seq![Some(TaskControl::Pause)] + waits + seq![Some(TaskControl::Resume)];
            let after = observed_all(p, body_len, controls);
            &&& after.1.len() == controls.len()
            &&& forall|i: int| 0 <= i < after.1.len() ==> !(#[trigger] after.1[i] is Run)
            &&& after.0 == p
            &&& p.next < body_len ==> after.0.observed(body_len, None).1 == Directive::Run(p.next)
        }),
{
    let paused = seq![Some(TaskControl::Pause)] + waits;
    lemma_suspended_waits(p, body_len, waits);
    let controls = paused + seq![Some(TaskControl::Resume)];
    assert(controls.drop_last() =~= paused);
    assert(controls.last() == Some(TaskControl::Resume));
}

/// A running task that observes a pause and then nothing but more pauses
/// is suspended, at the statement at which it was paused, and has been told
/// to run nothing.
proof fn lemma_suspended_waits(p: TaskProgress, body_len: usize, waits: Seq<Option<TaskControl>>)
    requires
        p.state is Running,
        forall|i: int|
            0 <= i < waits.len() ==> (#[trigger] waits[i]) is None || waits[i] == Some(
                TaskControl::Pause,
            ),
    ensures
        ({
            let after = observed_all(p, body_len, seq![Some(TaskControl::Pause)] + waits);
            &&& after.0 == p.in_state(TaskState::Suspended)
            &&& after.1.len() == waits.len() + 1
            &&& forall|i: int| 0 <= i < after.1.len() ==> !(#[trigger] after.1[i] is Run)
        }),
    decreases waits.len(),
{
    let first = seq![Some(TaskControl::Pause)];
    if waits.len() == 0 {
        assert(first + waits =~= first);
        assert(first.drop_last() =~= Seq::<Option<TaskControl>>::empty());
        assert(observed_all(p, body_len, first.drop_last()).0 == p);
    } else {
        lemma_suspended_waits(p, body_len, waits.drop_last());
        assert((first + waits).drop_last() =~= first + waits.drop_last());
        assert((first + waits).last() == waits[waits.len() - 1]);
    }
}

/// A task whose body fails every time is begun exactly `retry + 1` times:
/// each of the first `retry` failures begins it again, from its first
/// statement, and the failure after that ends it, with the degradation if
/// it has one and with the failure itself if not. A body that never fails
/// is begun once.
pub proof fn lemma_retry_count(policy: TaskPolicy, failures: nat)
    ensures
        failures <= policy.retry ==> {
            let now = failed_times(policy, failures);
            &&& now.0.state is Running
            &&& now.0.attempts() == failures + 1
            &&& now.0.next == 0
            &&& failures >= 1 ==> now.1 == Directive::Restart
        },
        failures == policy.retry + 1 ==> {
            let now = failed_times(policy, failures);
            &&& now.0.state is Finished
            &&& now.0.attempts() == policy.retry + 1
            &&& now.1 == policy.last_resort()
        },
    decreases failures,
{
    if failures > 0 {
        lemma_retry_count(policy, (failures - 1) as nat);
    }
}

/// A statement that runs to its end, or ends the body, begins no new
/// attempt.
pub proof fn lemma_success_begins_no_attempt(p: TaskProgress, policy: TaskPolicy)
    ensures
        p.completed(policy, Outcome::Advanced).0.attempts() == p.attempts(),
        p.completed(policy, Outcome::Returned).0.attempts() == p.attempts(),
        !(p.completed(policy, Outcome::Advanced).1 is Restart),
        !(p.completed(policy, Outcome::Returned).1 is Restart),
{
}

} // verus!

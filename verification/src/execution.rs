//! The running of a task: its body's machine, driven as its state and its
//! policy say.
//!
//! Between two statements of its body a task looks for a control message
//! and decides on it; after a statement it decides on the outcome. What it
//! decides is what [`TaskProgress`] says. An annotation's expression runs on
//! a machine of its own.

use vstd::prelude::*;
use vstd::string::*;
use crate::ast::{copy_expr, copy_stmts, stmt_models, AstStmt, ExprModel, StmtModel};
use crate::func::{anno_models, FasTask, FasTaskModel};
use crate::lifecycle::{Directive, Outcome, TaskPolicy, TaskProgress};
use crate::machine::{
    bind_args, bound_args, fresh_frame, option_model, stepped, Action, ActionModel, EvalError,
    Frame, FrameModel, Globals, GlobalsModel, Machine, MachineModel, SpawnRequest, Waiting,
    WaitingModel,
};
use crate::runner::{anno_from, error_text, error_value, find_anno, policy_of, read_policy};
use crate::task::{Polled, TaskControl, TaskResult, TaskResultModel, TaskValue, TaskValueShadow};
use crate::value::{copy_value, copy_values, value_models, FasValue, ValueModel};

verus! {

/// The annotations whose expressions a running task evaluates.
#[derive(Clone, Copy, Debug, PartialEq, Eq, Structural)]
pub enum HookKind {
    Pause,
    Resume,
    Rollback,
    Degradation,
}

/// What a running task is busy with.
#[derive(Clone, Copy, Debug, PartialEq, Eq, Structural)]
pub enum Mode {
    /// It stands between two statements of its body.
    Boundary,
    /// A statement of its body is under way.
    Statement,
    /// The expression of an annotation is under way.
    Hook(HookKind),
}

/// What the one who drives the task has to do after a step.
#[derive(Debug)]
pub enum TaskStep {
    /// Nothing: take the next step.
    Continue,
    /// Call the function of the host, and hand its result to the next step.
    CallNative { slot: usize, args: Vec<FasValue> },
    /// Schedule the task that this one has invoked.
    Spawn(SpawnRequest),
    /// Wait for the result of the task, and hand it to the next step.
    Await(TaskValue),
    /// Nothing can be done right now: let others run, and come back.
    Yield,
    /// The task has ended and has reported how.
    Ended,
}

pub enum TaskStepModel {
    Continue,
    CallNative { slot: nat, args: Seq<ValueModel> },
    Spawn { id: u64, task: FasTaskModel, args: Seq<ValueModel> },
    Await(u64),
    Yield,
    Ended,
}

impl View for TaskStep {
    type V = TaskStepModel;

    open spec fn view(&self) -> TaskStepModel {
        match self {
            TaskStep::Continue => TaskStepModel::Continue,
            TaskStep::CallNative { slot, args } => TaskStepModel::CallNative {
                slot: *slot as nat,
                args: value_models(*args),
            },
            TaskStep::Spawn(request) => TaskStepModel::Spawn {
                id: request.shadow@,
                task: request.task@,
                args: value_models(request.args),
            },
            TaskStep::Await(t) => TaskStepModel::Await(t@),
            TaskStep::Yield => TaskStepModel::Yield,
            TaskStep::Ended => TaskStepModel::Ended,
        }
    }
}

/// A task that runs.
#[derive(Debug)]
pub struct TaskExecution {
    pub shadow: TaskValueShadow,
    pub task: FasTask,
    pub args: Vec<FasValue>,
    pub policy: TaskPolicy,
    pub progress: TaskProgress,
    pub mode: Mode,
    /// The frames of the body.
    pub machine: Machine,
    /// The frames of the annotation's expression that is under way.
    pub hook: Machine,
    /// The failure that ended the latest attempt.
    pub failure: Option<EvalError>,
    /// What the task has reported at its end.
    pub reported: Option<TaskResult>,
}

pub struct ExecutionModel {
    pub id: u64,
    pub task: FasTaskModel,
    pub args: Seq<ValueModel>,
    pub policy: TaskPolicy,
    pub progress: TaskProgress,
    pub mode: Mode,
    pub machine: MachineModel,
    pub hook: MachineModel,
    pub failure: Option<EvalError>,
    pub reported: Option<TaskResultModel>,
}

impl View for TaskExecution {
    type V = ExecutionModel;

    open spec fn view(&self) -> ExecutionModel {
        ExecutionModel {
            id: self.shadow@,
            task: self.task@,
            args: value_models(self.args),
            policy: self.policy,
            progress: self.progress,
            mode: self.mode,
            machine: self.machine@,
            hook: self.hook@,
            failure: self.failure,
            reported: match self.reported {
                Some(r) => Some(r@),
                None => None,
            },
        }
    }
}

/// The machine of a fresh attempt: one frame that is about to run the body,
/// with the parameters bound to the arguments.
pub open spec fn attempt(task: FasTaskModel, args: Seq<ValueModel>) -> MachineModel {
    MachineModel {
        frames: seq![
            FrameModel {
                scope: if args.len() == task.arg_names.len() {
                    bound_args(task.arg_names, args, args.len())
                } else {
                    Seq::empty()
                },
                body: task.body,
                next: 0,
                last: ValueModel::Null,
                waiting: WaitingModel::Nothing,
            },
        ],
        result: None,
    }
}

/// A machine with nothing to run.
pub open spec fn no_machine() -> MachineModel {
    MachineModel { frames: Seq::empty(), result: None }
}

/// The machine that evaluates the expression.
pub open spec fn hook_machine(expr: ExprModel) -> MachineModel {
    MachineModel { frames: seq![fresh_frame(seq![StmtModel::Expr(expr)])], result: None }
}

/// The keyword of the annotation.
pub open spec fn hook_name(kind: HookKind) -> Seq<char> {
    match kind {
        HookKind::Pause => "pause"@,
        HookKind::Resume => "resume"@,
        HookKind::Rollback => "rollback"@,
        HookKind::Degradation => "degradation"@,
    }
}

/// What the body has resulted in: the machine's result, and before there is
/// one the latest value of the body's frame.
pub open spec fn body_result(m: MachineModel) -> ValueModel {
    match m.result {
        Some(v) => v,
        None => if m.frames.len() > 0 {
            m.frames[0].last
        } else {
            ValueModel::Null
        },
    }
}

/// The failure that was noted, as a value.
pub open spec fn failure_value(failure: Option<EvalError>) -> ValueModel {
    match failure {
        Some(e) => ValueModel::Str(error_text(e)),
        None => ValueModel::Null,
    }
}

/// Whether a failure is one that no retry mends.
pub open spec fn is_fatal(error: EvalError) -> bool {
    error is NotAnOperand || error is TooManyTasks
}

/// The outcome that a failure counts as.
pub open spec fn outcome_of(error: EvalError) -> Outcome {
    if is_fatal(error) {
        Outcome::Fatal
    } else {
        Outcome::Failed
    }
}

/// The task with its progress, its mode and its report set.
pub open spec fn moved(
    x: ExecutionModel,
    progress: TaskProgress,
    mode: Mode,
    reported: Option<TaskResultModel>,
) -> ExecutionModel {
    ExecutionModel {
        id: x.id,
        task: x.task,
        args: x.args,
        policy: x.policy,
        progress,
        mode,
        machine: x.machine,
        hook: x.hook,
        failure: x.failure,
        reported,
    }
}

/// The task after it has ended with the report.
pub open spec fn ended_with(x: ExecutionModel, report: TaskResultModel) -> (
    ExecutionModel,
    TaskStepModel,
) {
    (moved(x, x.progress, Mode::Boundary, Some(report)), TaskStepModel::Ended)
}

/// The task after it has begun the annotation's expression, where it has
/// such an annotation; `otherwise` is what becomes of it where it has none.
pub open spec fn hooked(
    x: ExecutionModel,
    kind: HookKind,
    otherwise: (ExecutionModel, TaskStepModel),
) -> (ExecutionModel, TaskStepModel) {
    match anno_from(x.task.annotations, hook_name(kind), 0) {
        Some(i) => (
            ExecutionModel {
                id: x.id,
                task: x.task,
                args: x.args,
                policy: x.policy,
                progress: x.progress,
                mode: Mode::Hook(kind),
                machine: x.machine,
                hook: hook_machine(x.task.annotations[i].expr),
                failure: x.failure,
                reported: x.reported,
            },
            TaskStepModel::Continue,
        ),
        None => otherwise,
    }
}

/// The task after it has done what it was told. To run a statement it
/// turns to its body. A pause, a resume, a rollback and a degradation
/// begin the expression of the annotation of that name; without the
/// annotation the first two go on and a rollback is reported at once. A
/// restart puts a fresh attempt in place of the body's machine. A finish
/// reports the body's result, a failure that is all that is left is
/// reported as a finish with the failure as its value, and a cancellation is
/// reported as such.
pub open spec fn obeyed(x: ExecutionModel, directive: Directive) -> (ExecutionModel, TaskStepModel) {
    match directive {
        Directive::Run(_) => (moved(x, x.progress, Mode::Statement, x.reported), TaskStepModel::Continue),
        Directive::Pause => hooked(x, HookKind::Pause, (x, TaskStepModel::Continue)),
        Directive::Resume => hooked(x, HookKind::Resume, (x, TaskStepModel::Continue)),
        Directive::Wait => (x, TaskStepModel::Yield),
        Directive::Poll => (x, TaskStepModel::Continue),
        Directive::Restart => (
            ExecutionModel {
                id: x.id,
                task: x.task,
                args: x.args,
                policy: x.policy,
                progress: x.progress,
                mode: Mode::Boundary,
                machine: attempt(x.task, x.args),
                hook: x.hook,
                failure: x.failure,
                reported: x.reported,
            },
            TaskStepModel::Continue,
        ),
        Directive::Finish => ended_with(x, TaskResultModel::Finish(body_result(x.machine))),
        Directive::Degrade => hooked(
            x,
            HookKind::Degradation,
            ended_with(x, TaskResultModel::Finish(ValueModel::Null)),
        ),
        Directive::Surface => ended_with(x, TaskResultModel::Finish(failure_value(x.failure))),
        Directive::Cancel => ended_with(x, TaskResultModel::Canceled),
        Directive::Rollback => hooked(
            x,
            HookKind::Rollback,
            ended_with(x, TaskResultModel::Rolledback),
        ),
        Directive::Stay => (x, TaskStepModel::Ended),
    }
}

/// The task after the expression of an annotation has given `v`. After a
/// pause or a resume the task goes on; after a rollback it reports the
/// rollback; after a degradation it reports a finish with the value.
pub open spec fn hook_done(x: ExecutionModel, kind: HookKind, v: ValueModel) -> (
    ExecutionModel,
    TaskStepModel,
) {
    let back = ExecutionModel {
        id: x.id,
        task: x.task,
        args: x.args,
        policy: x.policy,
        progress: x.progress,
        mode: Mode::Boundary,
        machine: x.machine,
        hook: no_machine(),
        failure: x.failure,
        reported: x.reported,
    };
    match kind {
        HookKind::Pause => (back, TaskStepModel::Continue),
        HookKind::Resume => (back, TaskStepModel::Continue),
        HookKind::Rollback => ended_with(back, TaskResultModel::Rolledback),
        HookKind::Degradation => ended_with(back, TaskResultModel::Finish(v)),
    }
}

/// What a step of a machine asks of the driver, as a step of the task.
pub open spec fn passed_on(action: ActionModel) -> TaskStepModel {
    match action {
        ActionModel::CallNative { slot, args } => TaskStepModel::CallNative { slot, args },
        ActionModel::Spawn { id, task, args } => TaskStepModel::Spawn { id, task, args },
        ActionModel::Await(id) => TaskStepModel::Await(id),
        ActionModel::Idle => TaskStepModel::Yield,
        _ => TaskStepModel::Continue,
    }
}

/// The task with another body machine.
pub open spec fn with_machine(x: ExecutionModel, machine: MachineModel) -> ExecutionModel {
    ExecutionModel {
        id: x.id,
        task: x.task,
        args: x.args,
        policy: x.policy,
        progress: x.progress,
        mode: x.mode,
        machine,
        hook: x.hook,
        failure: x.failure,
        reported: x.reported,
    }
}

/// The task with another hook machine.
pub open spec fn with_hook(x: ExecutionModel, hook: MachineModel) -> ExecutionModel {
    ExecutionModel {
        id: x.id,
        task: x.task,
        args: x.args,
        policy: x.policy,
        progress: x.progress,
        mode: x.mode,
        machine: x.machine,
        hook,
        failure: x.failure,
        reported: x.reported,
    }
}

/// Whether the statement that the task was told to run has completed and
/// the body goes on: the body's own frame stands alone, past the
/// statement, and waits for nothing.
pub open spec fn has_advanced(x: ExecutionModel, m: MachineModel) -> bool {
    m.frames.len() == 1 && m.frames[0].next > x.progress.next && m.frames[0].waiting is Nothing
}

/// One step of a running task, where `control` is the control message that
/// the task finds if it looks for one.
///
/// Between two statements the task looks for a control message, decides on
/// it as [`TaskProgress::observed`] says, and does what it is told. While a
/// statement is under way the body's machine takes a step: a failure or
/// the end of the body is an outcome that the task decides on as
/// [`TaskProgress::completed`] says, and so is the completion of the
/// statement. While the expression of an annotation is under way its
/// machine takes a step, until it has a value, which a failure stands in
/// for.
pub open spec fn task_stepped(
    x: ExecutionModel,
    g: GlobalsModel,
    control: Option<TaskControl>,
    input: Option<ValueModel>,
) -> (ExecutionModel, GlobalsModel, TaskStepModel) {
    match x.mode {
        Mode::Boundary => {
            let decided = x.progress.observed(x.task.body.len() as usize, control);
            let did = obeyed(moved(x, decided.0, x.mode, x.reported), decided.1);
            (did.0, g, did.1)
        },
        Mode::Statement => {
            let after = stepped(g, x.machine, input);
            let y = with_machine(x, after.machine);
            match after.action {
                ActionModel::Failed(e) => {
                    let decided = x.progress.completed(x.policy, outcome_of(e));
                    let z = ExecutionModel {
                        id: y.id,
                        task: y.task,
                        args: y.args,
                        policy: y.policy,
                        progress: decided.0,
                        mode: Mode::Boundary,
                        machine: y.machine,
                        hook: y.hook,
                        failure: Some(e),
                        reported: y.reported,
                    };
                    let did = obeyed(z, decided.1);
                    (did.0, after.globals, did.1)
                },
                ActionModel::Done => {
                    let decided = x.progress.completed(x.policy, Outcome::Returned);
                    let did = obeyed(moved(y, decided.0, Mode::Boundary, y.reported), decided.1);
                    (did.0, after.globals, did.1)
                },
                action => if has_advanced(x, after.machine) {
                    let decided = x.progress.completed(x.policy, Outcome::Advanced);
                    (
                        moved(y, decided.0, Mode::Boundary, y.reported),
                        after.globals,
                        passed_on(action),
                    )
                } else {
                    (y, after.globals, passed_on(action))
                },
            }
        },
        Mode::Hook(kind) => {
            let after = stepped(g, x.hook, input);
            let y = with_hook(x, after.machine);
            match after.action {
                ActionModel::Failed(e) => {
                    let did = hook_done(y, kind, ValueModel::Str(error_text(e)));
                    (did.0, after.globals, did.1)
                },
                ActionModel::Done => {
                    let did = hook_done(y, kind, body_result(after.machine));
                    (did.0, after.globals, did.1)
                },
                action => (y, after.globals, passed_on(action)),
            }
        },
    }
}

/// A task that has ended does nothing any more, whatever control message
/// comes: post-completion control messages are no-ops.
pub proof fn lemma_ended_task_stays(
    x: ExecutionModel,
    g: GlobalsModel,
    control: Option<TaskControl>,
    input: Option<ValueModel>,
)
    requires
        x.progress.ended(),
        x.mode is Boundary,
    ensures
        task_stepped(x, g, control, input) == (x, g, TaskStepModel::Ended),
{
}

/// What a task is and what it was invoked with stays the same from step to
/// step, and so does its policy.
pub proof fn lemma_task_stays_the_same(
    x: ExecutionModel,
    g: GlobalsModel,
    control: Option<TaskControl>,
    input: Option<ValueModel>,
)
    ensures
        ({
            let y = task_stepped(x, g, control, input).0;
            y.id == x.id && y.task == x.task && y.args == x.args && y.policy == x.policy
        }),
{
}

/// Whether the step is one in which the body fails and is begun again: a
/// statement of the running body is under way, the machine's step fails
/// with a failure that a retry may mend, and a retry is left.
pub open spec fn begins_again(x: ExecutionModel, g: GlobalsModel, input: Option<ValueModel>) -> bool {
    &&& x.mode is Statement
    &&& x.progress.state is Running
    &&& stepped(g, x.machine, input).action matches ActionModel::Failed(e) && !is_fatal(e)
    &&& x.progress.retries_used < x.policy.retry
}

/// Whether the step is one in which the body fails for good: as
/// [`begins_again`], but no retry is left.
pub open spec fn fails_for_good(x: ExecutionModel, g: GlobalsModel, input: Option<ValueModel>) -> bool {
    &&& x.mode is Statement
    &&& x.progress.state is Running
    &&& stepped(g, x.machine, input).action matches ActionModel::Failed(e) && !is_fatal(e)
    &&& x.progress.retries_used >= x.policy.retry
}

/// A step of a task begins one more attempt exactly where the body has
/// failed and a retry is left, and the attempt then begins at the first
/// statement of the body, on a fresh machine with the same arguments. No
/// other step begins an attempt. So a task whose body fails every time is
/// begun once and then once more for each retry that its policy allows.
pub proof fn lemma_task_step_counts_attempts(
    x: ExecutionModel,
    g: GlobalsModel,
    control: Option<TaskControl>,
    input: Option<ValueModel>,
)
    ensures
        ({
            let y = task_stepped(x, g, control, input).0;
            &&& begins_again(x, g, input) ==> y.progress.attempts() == x.progress.attempts() + 1
                && y.progress.state is Running && y.progress.next == 0 && y.mode is Boundary
                && y.machine == attempt(x.task, x.args) && y.reported == x.reported
            &&& !begins_again(x, g, input) ==> y.progress.attempts() == x.progress.attempts()
        }),
{
}

/// The failure of a body is reported only when no retry is left: the task
/// then has been begun once more than its policy allows retries, and
/// without a degradation it reports a finish with the failure as its
/// value. While a retry is left nothing is reported.
pub proof fn lemma_failure_surfaces_last(
    x: ExecutionModel,
    g: GlobalsModel,
    control: Option<TaskControl>,
    input: Option<ValueModel>,
)
    requires
        x.reported is None,
        x.progress.retries_used <= x.policy.retry,
    ensures
        ({
            let after = task_stepped(x, g, control, input);
            let failure = stepped(g, x.machine, input).action->Failed_0;
            &&& begins_again(x, g, input) ==> after.0.reported is None
            &&& fails_for_good(x, g, input) ==> x.progress.attempts() == x.policy.retry + 1
                && after.0.progress.state is Finished
            &&& fails_for_good(x, g, input) && !x.policy.has_degradation ==> after.0.reported
                == Some(TaskResultModel::Finish(ValueModel::Str(error_text(failure))))
                && after.2 is Ended
        }),
{
}

/// A body that comes to its end, or returns, is not begun again: the task
/// reports a finish with the result of the body and has ended. That is so
/// whatever its policy allows in retries.
pub proof fn lemma_success_is_reported(
    x: ExecutionModel,
    g: GlobalsModel,
    control: Option<TaskControl>,
    input: Option<ValueModel>,
)
    requires
        x.progress.state is Running,
        (x.mode is Boundary && control is None && x.progress.next >= x.task.body.len() as usize)
            || (x.mode is Statement && stepped(g, x.machine, input).action is Done),
    ensures
        ({
            let after = task_stepped(x, g, control, input);
            &&& after.0.progress.state is Finished
            &&& after.0.progress.attempts() == x.progress.attempts()
            &&& after.2 is Ended
            &&& x.mode is Boundary ==> after.0.reported == Some(
                TaskResultModel::Finish(body_result(x.machine)),
            )
            &&& x.mode is Statement ==> after.0.reported == Some(
                TaskResultModel::Finish(body_result(stepped(g, x.machine, input).machine)),
            )
        }),
{
}

/// A suspended task runs no statement of its body: while it is suspended
/// and no statement is under way, a step leaves the body's machine and the
/// place in the body as they are, whatever else it does, and no statement
/// is under way afterwards. The task runs again only by a step that
/// observes a resume. So what is left of the body runs after the resume
/// has been observed, and never before.
pub proof fn lemma_suspended_task_runs_nothing(
    x: ExecutionModel,
    g: GlobalsModel,
    control: Option<TaskControl>,
    input: Option<ValueModel>,
)
    requires
        x.progress.state is Suspended,
        !(x.mode is Statement),
    ensures
        ({
            let y = task_stepped(x, g, control, input).0;
            &&& y.machine == x.machine
            &&& y.progress.next == x.progress.next
            &&& !(y.mode is Statement)
            &&& y.progress.state is Running ==> x.mode is Boundary && control == Some(
                TaskControl::Resume,
            )
        }),
{
}

/// A running task is suspended only between two statements, by a step that
/// observes a pause; no statement is under way then.
pub proof fn lemma_pause_comes_between_statements(
    x: ExecutionModel,
    g: GlobalsModel,
    control: Option<TaskControl>,
    input: Option<ValueModel>,
)
    requires
        !(x.progress.state is Suspended),
    ensures
        ({
            let y = task_stepped(x, g, control, input).0;
            y.progress.state is Suspended ==> x.mode is Boundary && control == Some(
                TaskControl::Pause,
            ) && !(y.mode is Statement) && y.machine == x.machine
        }),
{
}

/// The control message that a look found, if it found one.
pub open spec fn control_in(found: Polled<TaskControl>) -> Option<TaskControl> {
    match found {
        Polled::Message(c) => Some(c),
        _ => None,
    }
}

fn hook_keyword(kind: HookKind) -> (name: &'static str)
    ensures
        name@ == hook_name(kind),
{
    match kind {
        HookKind::Pause => "pause",
        HookKind::Resume => "resume",
        HookKind::Rollback => "rollback",
        HookKind::Degradation => "degradation",
    }
}

fn classify(error: EvalError) -> (outcome: Outcome)
    ensures
        outcome == outcome_of(error),
{
    match error {
        EvalError::NotAnOperand => Outcome::Fatal,
        EvalError::TooManyTasks => Outcome::Fatal,
        _ => Outcome::Failed,
    }
}

/// The machine of a fresh attempt.
fn fresh_attempt(task: &FasTask, args: &Vec<FasValue>) -> (m: Machine)
    ensures
        m@ == attempt(task@, value_models(*args)),
{
    let scope = if args.len() == task.arg_names.len() {
        bind_args(&task.arg_names, copy_values(args))
    } else {
        crate::env::Scope::new()
    };
    let mut frames: Vec<Frame> = Vec::new();
    frames.push(
        Frame {
            scope,
            body: copy_stmts(&task.body_stmts),
            next: 0,
            last: FasValue::Null,
            waiting: Waiting::Nothing,
        },
    );
    let m = Machine { frames, result: None };
    proof {
        assert(m@.frames =~= seq![m.frames[0]@]);
        assert(m@.frames =~= attempt(task@, value_models(*args)).frames);
    }
    m
}

/// A machine with nothing to run.
fn idle_machine() -> (m: Machine)
    ensures
        m@ == no_machine(),
{
    let m = Machine { frames: Vec::new(), result: None };
    proof {
        assert(m@.frames =~= Seq::<FrameModel>::empty());
    }
    m
}

/// What the machine has resulted in.
fn result_of(m: &Machine) -> (v: FasValue)
    ensures
        v@ == body_result(m@),
{
    match &m.result {
        Some(v) => copy_value(v),
        None => if m.frames.len() > 0 {
            copy_value(&m.frames[0].last)
        } else {
            FasValue::Null
        },
    }
}

impl TaskExecution {
    /// The running of the task that was invoked: it is about to begin its
    /// body for the first time, under the policy that its annotations
    /// declare.
    pub fn new(request: SpawnRequest, global: &crate::env::Scope) -> (x: TaskExecution)
        ensures
            x@.id == request.shadow@,
            x@.task == request.task@,
            x@.args == value_models(request.args),
            x@.policy == policy_of(request.task@.annotations, global@),
            x@.progress == TaskProgress::start(),
            x@.mode == Mode::Boundary,
            x@.machine == attempt(request.task@, value_models(request.args)),
            x@.hook == no_machine(),
            x@.failure is None,
            x@.reported is None,
    {
        let policy = read_policy(&request.task.annotations, global);
        let machine = fresh_attempt(&request.task, &request.args);
        TaskExecution {
            shadow: request.shadow,
            task: request.task,
            args: request.args,
            policy,
            progress: TaskProgress::new(),
            mode: Mode::Boundary,
            machine,
            hook: idle_machine(),
            failure: None,
            reported: None,
        }
    }

    /// Whether the task has reported its end.
    pub fn has_reported(&self) -> (b: bool)
        ensures
            b == (self@.reported is Some),
    {
        self.reported.is_some()
    }

    /// Reports the end of the task to its owner and notes what was
    /// reported.
    fn end_with(&mut self, report: TaskResult) -> (step: TaskStep)
        ensures
            (final(self)@, step@) == ended_with(old(self)@, report@),
    {
        let sent = report.clone();
        let _ = self.shadow.report(sent);
        self.reported = Some(report);
        self.mode = Mode::Boundary;
        TaskStep::Ended
    }

    /// Begins the expression of the annotation, if the task has it, and
    /// says whether it has.
    fn begin_hook(&mut self, kind: HookKind) -> (begun: bool)
        ensures
            begun == (anno_from(old(self)@.task.annotations, hook_name(kind), 0) is Some),
            begun ==> (final(self)@, TaskStepModel::Continue) == hooked(
                old(self)@,
                kind,
                (old(self)@, TaskStepModel::Continue),
            ),
            !begun ==> final(self)@ == old(self)@,
    {
        match find_anno(&self.task.annotations, hook_keyword(kind)) {
            Some(i) => {
                proof {
                    assert(anno_models(self.task.annotations)[i as int]
                        == self.task.annotations[i as int]@);
                }
                let mut body: Vec<AstStmt> = Vec::new();
                body.push(AstStmt::Expr(copy_expr(&self.task.annotations[i].anno_expr)));
                proof {
                    assert(stmt_models(body) =~= seq![body[0]@]);
                }
                self.hook = Machine::new(body);
                self.mode = Mode::Hook(kind);
                true
            },
            None => false,
        }
    }

    /// Does what the task was told; see [`obeyed`].
    fn obey(&mut self, directive: Directive) -> (step: TaskStep)
        ensures
            (final(self)@, step@) == obeyed(old(self)@, directive),
    {
        match directive {
            Directive::Run(_) => {
                self.mode = Mode::Statement;
                TaskStep::Continue
            },
            Directive::Pause => {
                let _ = self.begin_hook(HookKind::Pause);
                TaskStep::Continue
            },
            Directive::Resume => {
                let _ = self.begin_hook(HookKind::Resume);
                TaskStep::Continue
            },
            Directive::Wait => TaskStep::Yield,
            Directive::Poll => TaskStep::Continue,
            Directive::Restart => {
                let _ = self.shadow.drain_controls(usize::MAX);
                self.machine = fresh_attempt(&self.task, &self.args);
                self.mode = Mode::Boundary;
                TaskStep::Continue
            },
            Directive::Finish => {
                let value = result_of(&self.machine);
                self.end_with(TaskResult::Finish(value))
            },
            Directive::Degrade => {
                if self.begin_hook(HookKind::Degradation) {
                    TaskStep::Continue
                } else {
                    self.end_with(TaskResult::Finish(FasValue::Null))
                }
            },
            Directive::Surface => {
                let value = match self.failure {
                    Some(e) => error_value(e),
                    None => FasValue::Null,
                };
                self.end_with(TaskResult::Finish(value))
            },
            Directive::Cancel => self.end_with(TaskResult::Canceled),
            Directive::Rollback => {
                if self.begin_hook(HookKind::Rollback) {
                    TaskStep::Continue
                } else {
                    self.end_with(TaskResult::Rolledback)
                }
            },
            Directive::Stay => TaskStep::Ended,
        }
    }

    /// Takes up the value of the annotation's expression; see
    /// [`hook_done`].
    fn end_hook(&mut self, kind: HookKind, value: FasValue) -> (step: TaskStep)
        ensures
            (final(self)@, step@) == hook_done(old(self)@, kind, value@),
    {
        self.hook = idle_machine();
        self.mode = Mode::Boundary;
        match kind {
            HookKind::Pause => TaskStep::Continue,
            HookKind::Resume => TaskStep::Continue,
            HookKind::Rollback => self.end_with(TaskResult::Rolledback),
            HookKind::Degradation => self.end_with(TaskResult::Finish(value)),
        }
    }

    /// Takes one step, given the control message that a look has found, or
    /// none; see [`task_stepped`].
    pub fn decide(
        &mut self,
        globals: &mut Globals,
        control: Option<TaskControl>,
        input: Option<FasValue>,
    ) -> (step: TaskStep)
        ensures
            (final(self)@, final(globals)@, step@) == task_stepped(
                old(self)@,
                old(globals)@,
                control,
                option_model(input),
            ),
    {
        match self.mode {
            Mode::Boundary => {
                let decided = self.progress.on_control(self.task.body_stmts.len(), control);
                self.progress = decided.0;
                self.obey(decided.1)
            },
            Mode::Statement => {
                let action = self.machine.step(globals, input);
                match action {
                    Action::Failed(e) => {
                        let decided = self.progress.on_outcome(self.policy, classify(e));
                        self.progress = decided.0;
                        self.mode = Mode::Boundary;
                        self.failure = Some(e);
                        self.obey(decided.1)
                    },
                    Action::Done => {
                        let decided = self.progress.on_outcome(self.policy, Outcome::Returned);
                        self.progress = decided.0;
                        self.mode = Mode::Boundary;
                        self.obey(decided.1)
                    },
                    other => {
                        let alone = self.machine.frames.len() == 1;
                        let advanced = alone && self.machine.frames[0].next > self.progress.next
                            && (match &self.machine.frames[0].waiting {
                            Waiting::Nothing => true,
                            _ => false,
                        });
                        proof {
                            if alone {
                                assert(self.machine@.frames[0] == self.machine.frames[0]@);
                            }
                        }
                        if advanced {
                            let decided = self.progress.on_outcome(self.policy, Outcome::Advanced);
                            self.progress = decided.0;
                            self.mode = Mode::Boundary;
                        }
                        pass_on(other)
                    },
                }
            },
            Mode::Hook(kind) => {
                let action = self.hook.step(globals, input);
                match action {
                    Action::Failed(e) => self.end_hook(kind, error_value(e)),
                    Action::Done => {
                        let value = result_of(&self.hook);
                        self.end_hook(kind, value)
                    },
                    other => pass_on(other),
                }
            },
        }
    }

    /// Takes one step: between two statements the task looks for a control
    /// message first. Whatever the look finds, the step is the one that
    /// [`task_stepped`] describes for it.
    pub fn step(&mut self, globals: &mut Globals, input: Option<FasValue>) -> (step: TaskStep)
        ensures
            exists|control: Option<TaskControl>|
                (final(self)@, final(globals)@, step@) == #[trigger] task_stepped(
                    old(self)@,
                    old(globals)@,
                    control,
                    option_model(input),
                ),
    {
        let control: Option<TaskControl> = match self.mode {
            Mode::Boundary => match self.shadow.poll_control() {
                Polled::Message(c) => Some(c),
                _ => None,
            },
            _ => None,
        };
        self.decide(globals, control, input)
    }
}

/// Hands on what a machine's step asks of the driver.
fn pass_on(action: Action) -> (step: TaskStep)
    ensures
        step@ == passed_on(action@),
{
    match action {
        Action::CallNative { slot, args } => TaskStep::CallNative { slot, args },
        Action::Spawn(request) => TaskStep::Spawn(request),
        Action::Await(t) => TaskStep::Await(t),
        Action::Idle => TaskStep::Yield,
        _ => TaskStep::Continue,
    }
}

} // verus!

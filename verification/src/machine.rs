//! The evaluator: a machine that runs the statements of a script or of a
//! task's body one step at a time.
//!
//! The machine holds the frames that are active, the innermost last. What
//! it cannot do itself, it asks of the one who drives it: to call a function
//! of the host, to schedule a task that was invoked, or to wait for a task's
//! result. A statement that asks for such a thing calls or awaits at its top
//! and takes operands, which are literals, names and functions without a
//! name.

use vstd::prelude::*;
use vstd::string::*;
use crate::ast::{
    copy_stmt, expr_models, name_models, stmt_models, AstExpr, AstStmt, ExprModel, StmtModel,
};
use crate::env::{assigned, looked_up, owner, rebound, Scope, ScopeModel};
use crate::func::{copy_func, AstFunc, AstFuncExpr, FasTask, FasTaskModel, FuncModel};
use crate::task::{TaskValue, TaskValueShadow};
use crate::value::{copy_value, value_models, FasValue, ValueModel};

verus! {

/// Why a statement could not be evaluated.
#[derive(Clone, Copy, Debug, PartialEq, Eq, Structural)]
pub enum EvalError {
    /// A name is bound nowhere.
    Unbound,
    /// What is called is no function and no task.
    NotCallable,
    /// A call has more or fewer arguments than the callee has parameters.
    WrongArity,
    /// What is awaited is no task.
    NotATask,
    /// A call or an await stands where an operand must stand.
    NotAnOperand,
    /// No number is left for one more task.
    TooManyTasks,
}

/// What the statement that a frame is at waits for.
#[derive(Debug)]
pub enum Waiting {
    /// It has not been begun.
    Nothing,
    /// The result of a function of the host.
    Native,
    /// The result of the task.
    Task(TaskValue),
    /// The result of the frame above.
    Callee,
}

pub enum WaitingModel {
    Nothing,
    Native,
    Task(u64),
    Callee,
}

/// An active call of a function, the body of a task, or the script itself.
#[derive(Debug)]
pub struct Frame {
    pub scope: Scope,
    pub body: Vec<AstStmt>,
    /// The index of the statement that the frame is at.
    pub next: usize,
    /// The value of the statement that completed last: what the frame
    /// results in if its body ends without a return.
    pub last: FasValue,
    pub waiting: Waiting,
}

pub struct FrameModel {
    pub scope: ScopeModel,
    pub body: Seq<StmtModel>,
    pub next: nat,
    pub last: ValueModel,
    pub waiting: WaitingModel,
}

impl View for Waiting {
    type V = WaitingModel;

    open spec fn view(&self) -> WaitingModel {
        match self {
            Waiting::Nothing => WaitingModel::Nothing,
            Waiting::Native => WaitingModel::Native,
            Waiting::Task(t) => WaitingModel::Task(t@),
            Waiting::Callee => WaitingModel::Callee,
        }
    }
}

impl View for Frame {
    type V = FrameModel;

    open spec fn view(&self) -> FrameModel {
        FrameModel {
            scope: self.scope@,
            body: stmt_models(self.body),
            next: self.next as nat,
            last: self.last@,
            waiting: self.waiting@,
        }
    }
}

/// The models of the frames, the innermost last.
pub open spec fn frame_models(frames: Vec<Frame>) -> Seq<FrameModel> {
    Seq::new(frames.len() as nat, |i: int| frames[i]@)
}

/// The scopes of the frames.
pub open spec fn scopes_of(frames: Seq<FrameModel>) -> Seq<ScopeModel> {
    Seq::new(frames.len(), |i: int| frames[i].scope)
}

/// The frames with other scopes.
pub open spec fn with_scopes(frames: Seq<FrameModel>, scopes: Seq<ScopeModel>) -> Seq<FrameModel> {
    Seq::new(
        frames.len(),
        |i: int|
            FrameModel {
                scope: scopes[i],
                body: frames[i].body,
                next: frames[i].next,
                last: frames[i].last,
                waiting: frames[i].waiting,
            },
    )
}

/// Looks the name up, from the innermost frame outwards and in the global
/// scope last.
pub fn lookup(global: &Scope, frames: &Vec<Frame>, name: &str) -> (value: Option<FasValue>)
    ensures
        match looked_up(
            global@,
            scopes_of(frame_models(*frames)),
            frames.len() as int,
            name@,
        ) {
            Some(v) => value is Some && value->Some_0@ == v,
            None => value is None,
        },
{
    let ghost scopes = scopes_of(frame_models(*frames));
    let mut depth: usize = frames.len();
    while depth > 0
        invariant
            depth <= frames.len(),
            scopes == scopes_of(frame_models(*frames)),
            looked_up(global@, scopes, frames.len() as int, name@) == looked_up(
                global@,
                scopes,
                depth as int,
                name@,
            ),
        decreases depth,
    {
        proof {
            assert(scopes[depth - 1] == frames[depth - 1].scope@);
        }
        match frames[depth - 1].scope.get(name) {
            Some(v) => {
                return Some(v);
            },
            None => {},
        }
        depth = depth - 1;
    }
    global.get(name)
}

/// Assigns the value to the name: in the scope that binds it, looked for
/// from the innermost frame outwards and in the global scope last, and in
/// the innermost scope if none binds it.
pub fn assign(global: &mut Scope, frames: &mut Vec<Frame>, name: String, value: FasValue)
    ensures
        final(global)@ == assigned(
            old(global)@,
            scopes_of(frame_models(*old(frames))),
            name@,
            value@,
        ).0,
        frame_models(*final(frames)) == with_scopes(
            frame_models(*old(frames)),
            assigned(old(global)@, scopes_of(frame_models(*old(frames))), name@, value@).1,
        ),
{
    let ghost before = frame_models(*frames);
    let ghost scopes = scopes_of(before);
    let mut depth: usize = frames.len();
    let mut found: Option<usize> = None;
    while depth > 0 && found.is_none()
        invariant
            depth <= frames.len(),
            before == frame_models(*frames),
            scopes == scopes_of(before),
            match found {
                Some(i) => owner(scopes, frames.len() as int, name@) == Some(i as int) && i
                    < frames.len(),
                None => owner(scopes, frames.len() as int, name@) == owner(
                    scopes,
                    depth as int,
                    name@,
                ),
            },
        decreases depth + (if found is None { 1int } else { 0int }),
    {
        proof {
            assert(scopes[depth - 1] == frames[depth - 1].scope@);
        }
        if frames[depth - 1].scope.find(name.as_str()).is_some() {
            found = Some(depth - 1);
        } else {
            depth = depth - 1;
        }
    }
    let target: Option<usize> = match found {
        Some(i) => Some(i),
        None => if global.find(name.as_str()).is_some() || frames.len() == 0 {
            None
        } else {
            Some(frames.len() - 1)
        },
    };
    match target {
        Some(i) => {
            proof {
                assert(scopes[i as int] == frames[i as int].scope@);
            }
            frames[i].scope.set(name, value);
            proof {
                let wanted = with_scopes(
                    before,
                    scopes.update(i as int, rebound(scopes[i as int], name@, value@)),
                );
                assert(frame_models(*frames) =~= wanted);
            }
        },
        None => {
            global.set(name, value);
            proof {
                assert(frame_models(*frames) =~= with_scopes(before, scopes));
            }
        },
    }
}

/// What all the frames of a runtime share: the global scope, and the number
/// that the next task gets.
#[derive(Debug)]
pub struct Globals {
    pub scope: Scope,
    pub next_task: u64,
}

pub struct GlobalsModel {
    pub scope: ScopeModel,
    pub next_task: u64,
}

impl View for Globals {
    type V = GlobalsModel;

    open spec fn view(&self) -> GlobalsModel {
        GlobalsModel { scope: self.scope@, next_task: self.next_task }
    }
}

/// The frames of one thing that runs, the script or a task, and what it
/// resulted in once no frame is left.
#[derive(Debug)]
pub struct Machine {
    pub frames: Vec<Frame>,
    pub result: Option<FasValue>,
}

pub struct MachineModel {
    pub frames: Seq<FrameModel>,
    pub result: Option<ValueModel>,
}

impl View for Machine {
    type V = MachineModel;

    open spec fn view(&self) -> MachineModel {
        MachineModel {
            frames: frame_models(self.frames),
            result: match self.result {
                Some(v) => Some(v@),
                None => None,
            },
        }
    }
}

/// A task that was invoked and has to be scheduled: its half of the handle,
/// its definition and its arguments.
#[derive(Debug)]
pub struct SpawnRequest {
    pub shadow: TaskValueShadow,
    pub task: FasTask,
    pub args: Vec<FasValue>,
}

/// What the one who drives the machine has to do after a step.
#[derive(Debug)]
pub enum Action {
    /// Nothing: take the next step.
    Continue,
    /// Call the function of the host in that slot with the arguments, and
    /// hand its result to the next step.
    CallNative { slot: usize, args: Vec<FasValue> },
    /// Schedule the task; the machine has gone on already.
    Spawn(SpawnRequest),
    /// Wait for the result of the task, and hand it to the next step.
    Await(TaskValue),
    /// The machine waits for what it has asked for.
    Idle,
    /// No frame is left: the machine has its result.
    Done,
    /// The statement cannot be evaluated; the machine stays as it is.
    Failed(EvalError),
}

pub enum ActionModel {
    Continue,
    CallNative { slot: nat, args: Seq<ValueModel> },
    Spawn { id: u64, task: FasTaskModel, args: Seq<ValueModel> },
    Await(u64),
    Idle,
    Done,
    Failed(EvalError),
}

impl View for Action {
    type V = ActionModel;

    open spec fn view(&self) -> ActionModel {
        match self {
            Action::Continue => ActionModel::Continue,
            Action::CallNative { slot, args } => ActionModel::CallNative {
                slot: *slot as nat,
                args: value_models(*args),
            },
            Action::Spawn(request) => ActionModel::Spawn {
                id: request.shadow@,
                task: request.task@,
                args: value_models(request.args),
            },
            Action::Await(t) => ActionModel::Await(t@),
            Action::Idle => ActionModel::Idle,
            Action::Done => ActionModel::Done,
            Action::Failed(e) => ActionModel::Failed(*e),
        }
    }
}

/// The state after a step, and what the step asks for.
pub struct StepModel {
    pub globals: GlobalsModel,
    pub machine: MachineModel,
    pub action: ActionModel,
}

/// The value of an operand: a literal is its value, a name what it is bound
/// to, a function without a name that function. A call or an await is no
/// operand.
pub open spec fn operand_value(e: ExprModel, global: ScopeModel, scopes: Seq<ScopeModel>) -> Result<
    ValueModel,
    EvalError,
> {
    match e {
        ExprModel::Empty => Ok(ValueModel::Null),
        ExprModel::Null => Ok(ValueModel::Null),
        ExprModel::Bool(b) => Ok(ValueModel::Bool(b)),
        ExprModel::Int(i) => Ok(ValueModel::Int(i)),
        ExprModel::Float(bits) => Ok(ValueModel::Float(bits)),
        ExprModel::Str(s) => Ok(ValueModel::Str(s)),
        ExprModel::Id(name) => match looked_up(global, scopes, scopes.len() as int, name) {
            Some(v) => Ok(v),
            None => Err(EvalError::Unbound),
        },
        ExprModel::Lambda(f) => Ok(ValueModel::Func(*f)),
        _ => Err(EvalError::NotAnOperand),
    }
}

/// The values of the first `n` operands, if each has one.
pub open spec fn operand_values(
    args: Seq<ExprModel>,
    n: nat,
    global: ScopeModel,
    scopes: Seq<ScopeModel>,
) -> Result<Seq<ValueModel>, EvalError>
    decreases n,
{
    if n == 0 || n > args.len() {
        Ok(Seq::empty())
    } else {
        match operand_values(args, (n - 1) as nat, global, scopes) {
            Err(e) => Err(e),
            Ok(done) => match operand_value(args[n - 1], global, scopes) {
                Err(e) => Err(e),
                Ok(v) => Ok(done.push(v)),
            },
        }
    }
}

/// The scope of a call: the first `n` parameters bound to the arguments,
/// one after the other.
pub open spec fn bound_args(names: Seq<Seq<char>>, values: Seq<ValueModel>, n: nat) -> ScopeModel
    decreases n,
{
    if n == 0 || n > names.len() || n > values.len() {
        Seq::empty()
    } else {
        rebound(bound_args(names, values, (n - 1) as nat), names[n - 1], values[n - 1])
    }
}

/// The frame after the statement that it was at has completed with `v`.
pub open spec fn advanced(f: FrameModel, v: ValueModel) -> FrameModel {
    FrameModel {
        scope: f.scope,
        body: f.body,
        next: f.next + 1,
        last: v,
        waiting: WaitingModel::Nothing,
    }
}

/// The frame, waiting.
pub open spec fn waiting_for(f: FrameModel, waiting: WaitingModel) -> FrameModel {
    FrameModel { scope: f.scope, body: f.body, next: f.next, last: f.last, waiting }
}

/// The global scope, the frames and the machine's result after the
/// statement that the innermost frame is at has completed with `v`. A
/// return ends the frame, and so does the end of the body: the statement of
/// the frame below then completes with the same value, and with no frame
/// left the value is the machine's result. An assignment binds the name
/// first. In every other case the frame goes on to its next statement.
pub open spec fn completed(global: ScopeModel, frames: Seq<FrameModel>, v: ValueModel) -> (
    ScopeModel,
    Seq<FrameModel>,
    Option<ValueModel>,
)
    decreases frames.len(),
{
    if frames.len() == 0 {
        (global, frames, Some(v))
    } else {
        let top = frames.last();
        if top.next >= top.body.len() {
            completed(global, frames.drop_last(), v)
        } else {
            match top.body[top.next as int] {
                StmtModel::Return(_) => completed(global, frames.drop_last(), v),
                StmtModel::Assign { name, .. } => {
                    let after = assigned(global, scopes_of(frames), name, v);
                    let rescoped = with_scopes(frames, after.1);
                    (
                        after.0,
                        rescoped.update(frames.len() - 1, advanced(rescoped.last(), v)),
                        None,
                    )
                },
                _ => (global, frames.update(frames.len() - 1, advanced(top, v)), None),
            }
        }
    }
}

/// The expression that the statement evaluates, if it evaluates one.
pub open spec fn expr_in(s: StmtModel) -> Option<ExprModel> {
    match s {
        StmtModel::Expr(e) => Some(e),
        StmtModel::Assign { value, .. } => Some(value),
        StmtModel::Return(e) => Some(e),
        StmtModel::Define(_) => None,
    }
}

/// The step that fails with `error` and changes nothing.
pub open spec fn failed(g: GlobalsModel, m: MachineModel, error: EvalError) -> StepModel {
    StepModel { globals: g, machine: m, action: ActionModel::Failed(error) }
}

/// The step in which the statement of the innermost frame completes with
/// `v` and that asks for `action`.
pub open spec fn finished(g: GlobalsModel, m: MachineModel, v: ValueModel, action: ActionModel)
    -> StepModel {
    let after = completed(g.scope, m.frames, v);
    StepModel {
        globals: GlobalsModel { scope: after.0, next_task: g.next_task },
        machine: MachineModel {
            frames: after.1,
            result: match after.2 {
                Some(r) => Some(r),
                None => m.result,
            },
        },
        action,
    }
}

/// The step that begins the call of `callee` with the arguments `args`. A
/// function of the host is asked of the driver. A function of the script
/// gets a frame of its own. A task gets the next number and is handed to
/// the driver to be scheduled, and the call completes at once, with the
/// task's handle.
pub open spec fn called(g: GlobalsModel, m: MachineModel, callee: FuncModel, args: Seq<ValueModel>)
    -> StepModel {
    let top = m.frames.last();
    let at = m.frames.len() - 1;
    match callee {
        FuncModel::Native { slot, .. } => StepModel {
            globals: g,
            machine: MachineModel {
                frames: m.frames.update(at, waiting_for(top, WaitingModel::Native)),
                result: m.result,
            },
            action: ActionModel::CallNative { slot, args },
        },
        FuncModel::Func(f) => StepModel {
            globals: g,
            machine: MachineModel {
                frames: m.frames.update(at, waiting_for(top, WaitingModel::Callee)).push(
                    FrameModel {
                        scope: bound_args(f.arg_names, args, args.len()),
                        body: f.body,
                        next: 0,
                        last: ValueModel::Null,
                        waiting: WaitingModel::Nothing,
                    },
                ),
                result: m.result,
            },
            action: ActionModel::Continue,
        },
        FuncModel::Task(t) => if g.next_task == u64::MAX {
            failed(g, m, EvalError::TooManyTasks)
        } else {
            finished(
                GlobalsModel { scope: g.scope, next_task: (g.next_task + 1) as u64 },
                m,
                ValueModel::Task(g.next_task),
                ActionModel::Spawn { id: g.next_task, task: t, args },
            )
        },
    }
}

/// The step that begins the statement that the innermost frame is at. A
/// definition binds its name in the global scope. A call looks its callee
/// up, which must be callable with as many arguments as the call has, and
/// takes the values of its arguments. An await takes the value of its
/// operand, which must be a task, and waits for it. Any other expression is
/// an operand, and the statement completes with its value.
pub open spec fn begun(g: GlobalsModel, m: MachineModel) -> StepModel
    recommends
        m.frames.len() > 0,
        m.frames.last().next < m.frames.last().body.len(),
{
    let top = m.frames.last();
    let at = m.frames.len() - 1;
    let scopes = scopes_of(m.frames);
    match top.body[top.next as int] {
        StmtModel::Define(f) => finished(
            GlobalsModel {
                scope: rebound(g.scope, f.name(), ValueModel::Func(f)),
                next_task: g.next_task,
            },
            m,
            ValueModel::Null,
            ActionModel::Continue,
        ),
        stmt => match expr_in(stmt)->Some_0 {
            ExprModel::Call { name, args } => match looked_up(
                g.scope,
                scopes,
                scopes.len() as int,
                name,
            ) {
                None => failed(g, m, EvalError::Unbound),
                Some(ValueModel::Func(callee)) => if callee.arity() != args.len() {
                    failed(g, m, EvalError::WrongArity)
                } else {
                    match operand_values(args, args.len(), g.scope, scopes) {
                        Err(e) => failed(g, m, e),
                        Ok(values) => called(g, m, callee, values),
                    }
                },
                Some(_) => failed(g, m, EvalError::NotCallable),
            },
            ExprModel::Await(operand) => match operand_value(*operand, g.scope, scopes) {
                Err(e) => failed(g, m, e),
                Ok(ValueModel::Task(id)) => StepModel {
                    globals: g,
                    machine: MachineModel {
                        frames: m.frames.update(at, waiting_for(top, WaitingModel::Task(id))),
                        result: m.result,
                    },
                    action: ActionModel::Await(id),
                },
                Ok(_) => failed(g, m, EvalError::NotATask),
            },
            operand => match operand_value(operand, g.scope, scopes) {
                Err(e) => failed(g, m, e),
                Ok(v) => finished(g, m, v, ActionModel::Continue),
            },
        },
    }
}

/// One step of the machine. With no frame left it is done. A frame whose
/// body has ended hands its latest value to the frame below. A frame that
/// waits for the host or for a task takes `input` as the result, and waits
/// on where there is none. Otherwise the statement that the innermost frame
/// is at is begun.
pub open spec fn stepped(g: GlobalsModel, m: MachineModel, input: Option<ValueModel>) -> StepModel {
    if m.frames.len() == 0 {
        StepModel { globals: g, machine: m, action: ActionModel::Done }
    } else {
        let top = m.frames.last();
        if top.next >= top.body.len() {
            finished(
                g,
                MachineModel { frames: m.frames.drop_last(), result: m.result },
                top.last,
                ActionModel::Continue,
            )
        } else {
            match top.waiting {
                WaitingModel::Nothing => begun(g, m),
                WaitingModel::Callee => StepModel {
                    globals: g,
                    machine: m,
                    action: ActionModel::Idle,
                },
                WaitingModel::Native => match input {
                    Some(v) => finished(g, m, v, ActionModel::Continue),
                    None => StepModel { globals: g, machine: m, action: ActionModel::Idle },
                },
                WaitingModel::Task(id) => match input {
                    Some(v) => finished(g, m, v, ActionModel::Continue),
                    None => StepModel { globals: g, machine: m, action: ActionModel::Await(id) },
                },
            }
        }
    }
}

/// Evaluates an operand.
pub fn eval_operand(e: &AstExpr, global: &Scope, frames: &Vec<Frame>) -> (r: Result<
    FasValue,
    EvalError,
>)
    ensures
        match operand_value(e@, global@, scopes_of(frame_models(*frames))) {
            Ok(v) => r is Ok && r->Ok_0@ == v,
            Err(e) => r is Err && r->Err_0 == e,
        },
{
    match e {
        AstExpr::Empty => Ok(FasValue::Null),
        AstExpr::Null => Ok(FasValue::Null),
        AstExpr::Bool(b) => Ok(FasValue::Bool(*b)),
        AstExpr::Int(i) => Ok(FasValue::Int(*i)),
        AstExpr::Float(f) => Ok(FasValue::Float(*f)),
        AstExpr::Str(s) => Ok(FasValue::String(s.clone())),
        AstExpr::Id(name) => match lookup(global, frames, name.as_str()) {
            Some(v) => Ok(v),
            None => Err(EvalError::Unbound),
        },
        AstExpr::Lambda(f) => Ok(FasValue::Func(Box::new(AstFuncExpr { func: copy_func(&**f) }))),
        _ => Err(EvalError::NotAnOperand),
    }
}

/// An error among the first operands is the error of them all.
proof fn lemma_operands_error(
    args: Seq<ExprModel>,
    n: nat,
    m: nat,
    global: ScopeModel,
    scopes: Seq<ScopeModel>,
)
    requires
        n <= m <= args.len(),
        operand_values(args, n, global, scopes) is Err,
    ensures
        operand_values(args, m, global, scopes) == operand_values(args, n, global, scopes),
    decreases m,
{
    if n < m {
        lemma_operands_error(args, n, (m - 1) as nat, global, scopes);
    }
}

/// Evaluates the operands of a call, in order.
pub fn eval_operands(args: &Vec<AstExpr>, global: &Scope, frames: &Vec<Frame>) -> (r: Result<
    Vec<FasValue>,
    EvalError,
>)
    ensures
        match operand_values(
            expr_models(*args),
            args.len() as nat,
            global@,
            scopes_of(frame_models(*frames)),
        ) {
            Ok(vs) => r is Ok && value_models(r->Ok_0) == vs && r->Ok_0.len() == args.len(),
            Err(e) => r is Err && r->Err_0 == e,
        },
{
    let ghost models = expr_models(*args);
    let ghost scopes = scopes_of(frame_models(*frames));
    let mut out: Vec<FasValue> = Vec::new();
    let mut i: usize = 0;
    proof {
        assert(value_models(out) =~= Seq::<ValueModel>::empty());
    }
    while i < args.len()
        invariant
            i <= args.len(),
            out.len() == i,
            models == expr_models(*args),
            scopes == scopes_of(frame_models(*frames)),
            operand_values(models, i as nat, global@, scopes) == Ok::<Seq<ValueModel>, EvalError>(
                value_models(out),
            ),
        decreases args.len() - i,
    {
        let ghost before = value_models(out);
        proof {
            assert(models[i as int] == args[i as int]@);
        }
        match eval_operand(&args[i], global, frames) {
            Ok(v) => {
                out.push(v);
                proof {
                    assert(value_models(out) =~= before.push(v@));
                }
            },
            Err(e) => {
                proof {
                    lemma_operands_error(
                        models,
                        (i + 1) as nat,
                        args.len() as nat,
                        global@,
                        scopes,
                    );
                }
                return Err(e);
            },
        }
        i = i + 1;
    }
    Ok(out)
}

/// Binds the parameters to the arguments, one after the other.
pub fn bind_args(names: &Vec<String>, values: Vec<FasValue>) -> (scope: Scope)
    requires
        names.len() == values.len(),
    ensures
        scope@ == bound_args(name_models(*names), value_models(values), values.len() as nat),
{
    let ghost ns = name_models(*names);
    let ghost vs = value_models(values);
    let mut scope = Scope::new();
    let mut i: usize = 0;
    while i < names.len()
        invariant
            i <= names.len(),
            names.len() == values.len(),
            ns == name_models(*names),
            vs == value_models(values),
            scope@ == bound_args(ns, vs, i as nat),
        decreases names.len() - i,
    {
        proof {
            assert(ns[i as int] == names[i as int]@);
            assert(vs[i as int] == values[i as int]@);
        }
        scope.set(names[i].clone(), copy_value(&values[i]));
        i = i + 1;
    }
    scope
}

/// The state after a step with what the step asks for.
pub open spec fn step_of(globals: GlobalsModel, machine: MachineModel, action: ActionModel)
    -> StepModel {
    StepModel { globals, machine, action }
}

/// The frame in which the statements begin to run, with an empty scope.
pub open spec fn fresh_frame(body: Seq<StmtModel>) -> FrameModel {
    FrameModel {
        scope: Seq::empty(),
        body,
        next: 0,
        last: ValueModel::Null,
        waiting: WaitingModel::Nothing,
    }
}

/// The value, if there is one, as mathematics.
pub open spec fn option_model(v: Option<FasValue>) -> Option<ValueModel> {
    match v {
        Some(x) => Some(x@),
        None => None,
    }
}

/// Completes the statement that the innermost frame is at with `value`; see
/// [`completed`].
pub fn complete(global: &mut Scope, machine: &mut Machine, value: FasValue)
    ensures
        final(global)@ == completed(old(global)@, old(machine)@.frames, value@).0,
        final(machine)@.frames == completed(old(global)@, old(machine)@.frames, value@).1,
        final(machine)@.result == (match completed(old(global)@, old(machine)@.frames, value@).2 {
            Some(r) => Some(r),
            None => old(machine)@.result,
        }),
{
    let ghost goal = completed(old(global)@, old(machine)@.frames, value@);
    let ghost result0 = old(machine)@.result;
    let mut settled = false;
    while !settled
        invariant
            !settled ==> global@ == old(global)@ && machine@.result == result0 && completed(
                global@,
                machine@.frames,
                value@,
            ) == goal,
            settled ==> global@ == goal.0 && machine@.frames == goal.1 && machine@.result == (
            match goal.2 {
                Some(r) => Some(r),
                None => result0,
            }),
        decreases machine.frames.len() + (if settled { 0int } else { 1int }),
    {
        let n = machine.frames.len();
        let ghost before = machine@.frames;
        if n == 0 {
            machine.result = Some(copy_value(&value));
            settled = true;
        } else {
            let at = n - 1;
            proof {
                assert(before.last() == machine.frames[at as int]@);
            }
            if machine.frames[at].next >= machine.frames[at].body.len() {
                machine.frames.pop();
                proof {
                    assert(machine@.frames =~= before.drop_last());
                }
            } else {
                let next = machine.frames[at].next;
                proof {
                    assert(before.last().body[next as int] == machine.frames[at as int].body[next as int]@);
                }
                let binds: Option<String> = match &machine.frames[at].body[next] {
                    AstStmt::Assign { name, .. } => Some(name.clone()),
                    _ => None,
                };
                let returns: bool = match &machine.frames[at].body[next] {
                    AstStmt::Return(_) => true,
                    _ => false,
                };
                if returns {
                    machine.frames.pop();
                    proof {
                        assert(machine@.frames =~= before.drop_last());
                    }
                } else {
                    match binds {
                        Some(name) => {
                            assign(global, &mut machine.frames, name, copy_value(&value));
                        },
                        None => {},
                    }
                    let ghost rescoped = machine@.frames;
                    proof {
                        assert(rescoped.last() == machine.frames[at as int]@);
                    }
                    machine.frames[at].last = copy_value(&value);
                    machine.frames[at].next = next + 1;
                    machine.frames[at].waiting = Waiting::Nothing;
                    proof {
                        assert(machine@.frames =~= rescoped.update(
                            at as int,
                            advanced(rescoped.last(), value@),
                        ));
                    }
                    settled = true;
                }
            }
        }
    }
}

impl Machine {
    /// A machine that is about to run the statements, in one frame with an
    /// empty scope.
    pub fn new(body: Vec<AstStmt>) -> (m: Machine)
        ensures
            m@.result is None,
            m@.frames == seq![fresh_frame(stmt_models(body))],
    {
        let mut frames: Vec<Frame> = Vec::new();
        frames.push(
            Frame {
                scope: Scope::new(),
                body,
                next: 0,
                last: FasValue::Null,
                waiting: Waiting::Nothing,
            },
        );
        let m = Machine { frames, result: None };
        proof {
            assert(m@.frames =~= seq![m.frames[0]@]);
        }
        m
    }

    /// Whether no frame is left.
    pub fn is_done(&self) -> (done: bool)
        ensures
            done == (self@.frames.len() == 0),
    {
        self.frames.len() == 0
    }

    /// Lets the innermost frame wait.
    fn wait_for(&mut self, waiting: Waiting)
        requires
            old(self).frames.len() > 0,
        ensures
            final(self)@.result == old(self)@.result,
            final(self)@.frames == old(self)@.frames.update(
                old(self)@.frames.len() - 1,
                waiting_for(old(self)@.frames.last(), waiting@),
            ),
    {
        let at = self.frames.len() - 1;
        let ghost before = self@.frames;
        proof {
            assert(before.last() == self.frames[at as int]@);
        }
        self.frames[at].waiting = waiting;
        proof {
            assert(self@.frames =~= before.update(at as int, waiting_for(before.last(), waiting@)));
        }
    }

    /// Begins the call of `callee`; see [`called`].
    fn call(&mut self, globals: &mut Globals, callee: AstFunc, values: Vec<FasValue>) -> (action:
        Action)
        requires
            old(self).frames.len() > 0,
            callee@.arity() == values.len(),
        ensures
            step_of(final(globals)@, final(self)@, action@) == called(
                old(globals)@,
                old(self)@,
                callee@,
                value_models(values),
            ),
    {
        match callee {
            AstFunc::NativeFunc(native) => {
                self.wait_for(Waiting::Native);
                Action::CallNative { slot: native.slot, args: values }
            },
            AstFunc::FasFunc(func) => {
                self.wait_for(Waiting::Callee);
                let ghost waiting = self@.frames;
                let scope = bind_args(&func.arg_names, values);
                self.frames.push(
                    Frame {
                        scope,
                        body: func.body_stmts,
                        next: 0,
                        last: FasValue::Null,
                        waiting: Waiting::Nothing,
                    },
                );
                proof {
                    assert(self@.frames =~= waiting.push(self.frames[self.frames.len() - 1]@));
                }
                Action::Continue
            },
            AstFunc::FasTask(task) => {
                if globals.next_task == u64::MAX {
                    Action::Failed(EvalError::TooManyTasks)
                } else {
                    let id = globals.next_task;
                    let (handle, shadow) = TaskValue::create(id);
                    globals.next_task = id + 1;
                    complete(&mut globals.scope, self, FasValue::Task(handle));
                    Action::Spawn(SpawnRequest { shadow, task, args: values })
                }
            },
        }
    }

    /// Begins the statement that the innermost frame is at; see [`begun`].
    fn begin(&mut self, globals: &mut Globals) -> (action: Action)
        requires
            old(self).frames.len() > 0,
            old(self)@.frames.last().next < old(self)@.frames.last().body.len(),
        ensures
            step_of(final(globals)@, final(self)@, action@) == begun(old(globals)@, old(self)@),
    {
        let at = self.frames.len() - 1;
        let ghost top = self@.frames.last();
        proof {
            assert(top == self.frames[at as int]@);
            assert(top.body[top.next as int] == self.frames[at as int].body[top.next as int]@);
        }
        let stmt = copy_stmt(&self.frames[at].body[self.frames[at].next]);
        let expr = match stmt {
            AstStmt::Define(func) => {
                let name = func.get_name();
                globals.scope.set(name, FasValue::Func(Box::new(AstFuncExpr { func })));
                complete(&mut globals.scope, self, FasValue::Null);
                return Action::Continue;
            },
            AstStmt::Expr(e) => e,
            AstStmt::Assign { value, .. } => value,
            AstStmt::Return(e) => e,
        };
        match expr {
            AstExpr::Call { name, args } => {
                proof {
                    assert(expr@->Call_args =~= expr_models(args));
                }
                match lookup(&globals.scope, &self.frames, name.as_str()) {
                    None => Action::Failed(EvalError::Unbound),
                    Some(FasValue::Func(callee)) => {
                        if callee.func.arity() != args.len() {
                            Action::Failed(EvalError::WrongArity)
                        } else {
                            match eval_operands(&args, &globals.scope, &self.frames) {
                                Err(e) => Action::Failed(e),
                                Ok(values) => self.call(globals, callee.func, values),
                            }
                        }
                    },
                    Some(_) => Action::Failed(EvalError::NotCallable),
                }
            },
            AstExpr::Await(operand) => {
                match eval_operand(&*operand, &globals.scope, &self.frames) {
                    Err(e) => Action::Failed(e),
                    Ok(FasValue::Task(task)) => {
                        let handle = task.clone();
                        self.wait_for(Waiting::Task(task));
                        Action::Await(handle)
                    },
                    Ok(_) => Action::Failed(EvalError::NotATask),
                }
            },
            operand => {
                match eval_operand(&operand, &globals.scope, &self.frames) {
                    Err(e) => Action::Failed(e),
                    Ok(v) => {
                        complete(&mut globals.scope, self, v);
                        Action::Continue
                    },
                }
            },
        }
    }

    /// Takes one step; see [`stepped`]. `input` is the result of what the
    /// step before asked for, if it asked for one.
    pub fn step(&mut self, globals: &mut Globals, input: Option<FasValue>) -> (action: Action)
        ensures
            step_of(final(globals)@, final(self)@, action@) == stepped(
                old(globals)@,
                old(self)@,
                option_model(input),
            ),
    {
        let n = self.frames.len();
        if n == 0 {
            return Action::Done;
        }
        let at = n - 1;
        let ghost before = self@.frames;
        proof {
            assert(before.last() == self.frames[at as int]@);
        }
        if self.frames[at].next >= self.frames[at].body.len() {
            let frame = self.frames.pop().unwrap();
            proof {
                assert(self@.frames =~= before.drop_last());
            }
            complete(&mut globals.scope, self, frame.last);
            return Action::Continue;
        }
        let awaited: Option<TaskValue> = match &self.frames[at].waiting {
            Waiting::Task(t) => Some(t.clone()),
            _ => None,
        };
        let idle: bool = match &self.frames[at].waiting {
            Waiting::Callee => true,
            _ => false,
        };
        let begins: bool = match &self.frames[at].waiting {
            Waiting::Nothing => true,
            _ => false,
        };
        if begins {
            self.begin(globals)
        } else if idle {
            Action::Idle
        } else {
            match input {
                Some(v) => {
                    complete(&mut globals.scope, self, v);
                    Action::Continue
                },
                None => match awaited {
                    Some(t) => Action::Await(t),
                    None => Action::Idle,
                },
            }
        }
    }
}

/// Statements run in the order in which they stand: a statement that is no
/// return and completes lets its frame go on to the statement after it,
/// with the frames as many as before; a return ends its frame.
pub proof fn lemma_statements_run_in_order(global: ScopeModel, frames: Seq<FrameModel>, v: ValueModel)
    requires
        frames.len() > 0,
        frames.last().next < frames.last().body.len(),
    ensures
        ({
            let top = frames.last();
            let after = completed(global, frames, v);
            &&& !(top.body[top.next as int] is Return) ==> after.1.len() == frames.len()
                && after.1.last().next == top.next + 1 && after.1.last().last == v
                && after.1.last().body == top.body
            &&& top.body[top.next as int] is Return ==> after == completed(
                global,
                frames.drop_last(),
                v,
            )
        }),
{
}

/// The value that is handed to a frame which awaits a task is what the
/// await evaluates to: the statement that awaits completes with it.
pub proof fn lemma_awaited_value_is_taken(g: GlobalsModel, m: MachineModel, v: ValueModel)
    requires
        m.frames.len() > 0,
        m.frames.last().next < m.frames.last().body.len(),
        m.frames.last().waiting is Task,
    ensures
        stepped(g, m, Some(v)) == finished(g, m, v, ActionModel::Continue),
        stepped(g, m, None).action == ActionModel::Await(m.frames.last().waiting->Task_0),
        stepped(g, m, None).machine == m,
{
}

/// A step hands out a task exactly when it invokes one, and the task then
/// has the number that was next, which no later task gets: every invocation
/// makes one handle of its own, and every other step makes none.
pub proof fn lemma_step_numbers_tasks(g: GlobalsModel, m: MachineModel, input: Option<ValueModel>)
    ensures
        ({
            let after = stepped(g, m, input);
            &&& after.action is Spawn ==> after.action->Spawn_id == g.next_task
                && after.globals.next_task == g.next_task + 1
            &&& !(after.action is Spawn) ==> after.globals.next_task == g.next_task
        }),
{
}

/// Two invocations never give the same handle: a task that is invoked
/// after another has another number.
pub proof fn lemma_handles_differ(
    g1: GlobalsModel,
    m1: MachineModel,
    input1: Option<ValueModel>,
    g2: GlobalsModel,
    m2: MachineModel,
    input2: Option<ValueModel>,
)
    requires
        stepped(g1, m1, input1).action is Spawn,
        stepped(g2, m2, input2).action is Spawn,
        g2.next_task >= stepped(g1, m1, input1).globals.next_task,
    ensures
        stepped(g1, m1, input1).action->Spawn_id != stepped(g2, m2, input2).action->Spawn_id,
{
    lemma_step_numbers_tasks(g1, m1, input1);
    lemma_step_numbers_tasks(g2, m2, input2);
}

/// The number that the next task gets never goes down.
pub proof fn lemma_task_numbers_grow(g: GlobalsModel, m: MachineModel, input: Option<ValueModel>)
    ensures
        stepped(g, m, input).globals.next_task >= g.next_task,
{
    lemma_step_numbers_tasks(g, m, input);
}

} // verus!

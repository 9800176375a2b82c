//! The task runner: the evaluator of a script's own statements, and what a
//! task's annotations make of its policy.

use vstd::prelude::*;
use vstd::string::*;
use crate::ast::{stmt_models, AstStmt, StmtModel};
use crate::env::{bound_in, rebound, Scope, ScopeModel};
use crate::func::{anno_models, AnnoModel, AstAnnoPart};
use crate::lifecycle::TaskPolicy;
use crate::machine::{
    fresh_frame, operand_value, option_model, step_of, stepped, Action, EvalError, Frame,
    FrameModel, Globals, GlobalsModel, Machine, MachineModel, Waiting,
};
use crate::text::same_text;
use crate::value::{copy_value, FasValue, ValueModel};

verus! {

/// The index of the first annotation of the kind at or after `from`.
pub open spec fn anno_from(annos: Seq<AnnoModel>, kind: Seq<char>, from: int) -> Option<int>
    decreases annos.len() - from,
{
    if from < 0 || from >= annos.len() {
        None
    } else if annos[from].kind == kind {
        Some(from)
    } else {
        anno_from(annos, kind, from + 1)
    }
}

/// How often the annotations let a task's body be begun again: the value of
/// the first `retry` annotation, which is an operand evaluated in the
/// global scope, where that is an integer that is not negative, and zero
/// otherwise.
pub open spec fn retry_of(annos: Seq<AnnoModel>, global: ScopeModel) -> u64 {
    match anno_from(annos, "retry"@, 0) {
        Some(i) => match operand_value(annos[i].expr, global, Seq::empty()) {
            Ok(ValueModel::Int(n)) => if 0 <= n <= u64::MAX {
                n as u64
            } else {
                0
            },
            _ => 0,
        },
        None => 0,
    }
}

/// The policy that the annotations declare.
pub open spec fn policy_of(annos: Seq<AnnoModel>, global: ScopeModel) -> TaskPolicy {
    TaskPolicy {
        retry: retry_of(annos, global),
        has_degradation: anno_from(annos, "degradation"@, 0) is Some,
    }
}

/// The index of the first annotation of the kind.
pub fn find_anno(annos: &Vec<AstAnnoPart>, kind: &str) -> (found: Option<usize>)
    ensures
        match anno_from(anno_models(*annos), kind@, 0) {
            Some(i) => found == Some(i as usize) && 0 <= i < annos.len(),
            None => found is None,
        },
{
    let ghost models = anno_models(*annos);
    let mut i: usize = 0;
    while i < annos.len()
        invariant
            i <= annos.len(),
            models == anno_models(*annos),
            anno_from(models, kind@, 0) == anno_from(models, kind@, i as int),
        decreases annos.len() - i,
    {
        proof {
            assert(models[i as int] == annos[i as int]@);
        }
        if same_text(annos[i].anno_type.as_str(), kind) {
            return Some(i);
        }
        i = i + 1;
    }
    None
}

/// The policy that the annotations declare, the retry count evaluated in
/// the global scope.
pub fn read_policy(annos: &Vec<AstAnnoPart>, global: &Scope) -> (policy: TaskPolicy)
    ensures
        policy == policy_of(anno_models(*annos), global@),
{
    let ghost models = anno_models(*annos);
    let no_frames: Vec<Frame> = Vec::new();
    proof {
        assert(crate::machine::scopes_of(crate::machine::frame_models(no_frames)) =~= Seq::<
            ScopeModel,
        >::empty());
    }
    let retry: u64 = match find_anno(annos, "retry") {
        Some(i) => {
            proof {
                assert(models[i as int] == annos[i as int]@);
            }
            match crate::machine::eval_operand(&annos[i].anno_expr, global, &no_frames) {
                Ok(FasValue::Int(n)) => if n >= 0 {
                    n as u64
                } else {
                    0
                },
                _ => 0,
            }
        },
        None => 0,
    };
    TaskPolicy { retry, has_degradation: find_anno(annos, "degradation").is_some() }
}

/// What a failure reads as: the text that a task's finish carries when the
/// failure is all that is left to report.
pub open spec fn error_text(error: EvalError) -> Seq<char> {
    match error {
        EvalError::Unbound => "error: a name is not bound"@,
        EvalError::NotCallable => "error: what is called is not callable"@,
        EvalError::WrongArity => "error: a call has the wrong number of arguments"@,
        EvalError::NotATask => "error: what is awaited is not a task"@,
        EvalError::NotAnOperand => "error: an operand is a call or an await"@,
        EvalError::TooManyTasks => "error: no task number is left"@,
    }
}

/// The value that stands for a failure.
pub fn error_value(error: EvalError) -> (v: FasValue)
    ensures
        v@ == ValueModel::Str(error_text(error)),
{
    let text = match error {
        EvalError::Unbound => "error: a name is not bound",
        EvalError::NotCallable => "error: what is called is not callable",
        EvalError::WrongArity => "error: a call has the wrong number of arguments",
        EvalError::NotATask => "error: what is awaited is not a task",
        EvalError::NotAnOperand => "error: an operand is a call or an await",
        EvalError::TooManyTasks => "error: no task number is left",
    };
    FasValue::String(String::from_str(text))
}

/// The evaluator of a script: the global scope, and the machine that runs
/// the script's own statements.
#[derive(Debug)]
pub struct TaskRunner {
    pub globals: Globals,
    pub machine: Machine,
}

pub struct RunnerModel {
    pub globals: GlobalsModel,
    pub machine: MachineModel,
}

impl View for TaskRunner {
    type V = RunnerModel;

    open spec fn view(&self) -> RunnerModel {
        RunnerModel { globals: self.globals@, machine: self.machine@ }
    }
}

/// The frames after one more statement has been put at the end of the
/// script: the outermost frame has it as its last statement, and where no
/// frame is left a fresh one has it as its only statement.
pub open spec fn extended(frames: Seq<FrameModel>, stmt: StmtModel) -> Seq<FrameModel> {
    if frames.len() == 0 {
        seq![fresh_frame(seq![stmt])]
    } else {
        frames.update(
            0,
            FrameModel {
                scope: frames[0].scope,
                body: frames[0].body.push(stmt),
                next: frames[0].next,
                last: frames[0].last,
                waiting: frames[0].waiting,
            },
        )
    }
}

/// The frames after the first `n` of the statements have been put at the end
/// of the script, one after the other.
pub open spec fn extended_by(frames: Seq<FrameModel>, stmts: Seq<StmtModel>, n: nat) -> Seq<
    FrameModel,
>
    decreases n,
{
    if n == 0 || n > stmts.len() {
        frames
    } else {
        extended(extended_by(frames, stmts, (n - 1) as nat), stmts[n - 1])
    }
}

impl TaskRunner {
    /// A runner with nothing bound and nothing to run, whose first task will
    /// have the number zero.
    pub fn new() -> (runner: TaskRunner)
        ensures
            runner@.globals.scope == Seq::<(Seq<char>, ValueModel)>::empty(),
            runner@.globals.next_task == 0,
            runner@.machine.frames == Seq::<FrameModel>::empty(),
            runner@.machine.result is None,
    {
        let runner = TaskRunner {
            globals: Globals { scope: Scope::new(), next_task: 0 },
            machine: Machine { frames: Vec::new(), result: None },
        };
        proof {
            assert(runner@.machine.frames =~= Seq::<FrameModel>::empty());
        }
        runner
    }

    /// Binds the name in the global scope.
    pub fn set_global_value(&mut self, name: String, value: FasValue)
        ensures
            final(self)@.globals.scope == rebound(old(self)@.globals.scope, name@, value@),
            final(self)@.globals.next_task == old(self)@.globals.next_task,
            final(self)@.machine == old(self)@.machine,
    {
        self.globals.scope.set(name, value);
    }

    /// A copy of what the name is bound to in the global scope.
    pub fn get_global_value(&self, name: &str) -> (value: Option<FasValue>)
        ensures
            option_model(value) == bound_in(self@.globals.scope, name@),
    {
        self.globals.scope.get(name)
    }

    /// Puts the statement at the end of the script. It runs when the steps
    /// of the machine get to it.
    pub fn eval_stmt(&mut self, stmt: AstStmt)
        ensures
            final(self)@.globals == old(self)@.globals,
            final(self)@.machine.result == old(self)@.machine.result,
            final(self)@.machine.frames == extended(old(self)@.machine.frames, stmt@),
    {
        let ghost before = self@.machine.frames;
        if self.machine.frames.len() == 0 {
            let mut body: Vec<AstStmt> = Vec::new();
            body.push(stmt);
            proof {
                assert(stmt_models(body) =~= seq![stmt@]);
            }
            self.machine.frames.push(
                Frame {
                    scope: Scope::new(),
                    body,
                    next: 0,
                    last: FasValue::Null,
                    waiting: Waiting::Nothing,
                },
            );
            proof {
                assert(self@.machine.frames =~= extended(before, stmt@));
            }
        } else {
            let ghost body_before = stmt_models(self.machine.frames[0].body);
            proof {
                assert(before[0] == self.machine.frames[0]@);
            }
            self.machine.frames[0].body.push(stmt);
            proof {
                assert(stmt_models(self.machine.frames[0].body) =~= body_before.push(stmt@));
                assert(self@.machine.frames =~= extended(before, stmt@));
            }
        }
    }

    /// Puts the statements at the end of the script, in order.
    pub fn eval_stmts(&mut self, stmts: Vec<AstStmt>)
        ensures
            final(self)@.globals == old(self)@.globals,
            final(self)@.machine.result == old(self)@.machine.result,
            final(self)@.machine.frames == extended_by(
                old(self)@.machine.frames,
                stmt_models(stmts),
                stmts.len() as nat,
            ),
    {
        let ghost models = stmt_models(stmts);
        let mut i: usize = 0;
        while i < stmts.len()
            invariant
                i <= stmts.len(),
                models == stmt_models(stmts),
                self@.globals == old(self)@.globals,
                self@.machine.result == old(self)@.machine.result,
                self@.machine.frames == extended_by(old(self)@.machine.frames, models, i as nat),
            decreases stmts.len() - i,
        {
            proof {
                assert(models[i as int] == stmts[i as int]@);
            }
            self.eval_stmt(crate::ast::copy_stmt(&stmts[i]));
            i = i + 1;
        }
    }

    /// Takes one step of the script; see [`stepped`].
    pub fn step(&mut self, input: Option<FasValue>) -> (action: Action)
        ensures
            step_of(final(self)@.globals, final(self)@.machine, action@) == stepped(
                old(self)@.globals,
                old(self)@.machine,
                option_model(input),
            ),
    {
        self.machine.step(&mut self.globals, input)
    }

    /// What the script resulted in: the value of its last statement or of
    /// its return, once all its statements have run, and nothing before.
    pub fn get_return_value(&self) -> (value: Option<FasValue>)
        ensures
            option_model(value) == self@.machine.result,
    {
        match &self.machine.result {
            Some(v) => Some(copy_value(v)),
            None => None,
        }
    }
}

} // verus!

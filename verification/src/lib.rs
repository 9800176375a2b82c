//! Runtime core of a small scripting language with first-class, annotated,
//! controllable tasks: the dynamic value, the task control protocol, the
//! annotation model, and the evaluator that runs scripts and tasks.

pub mod ast;
pub mod convert;
pub mod env;
pub mod execution;
pub mod float;
pub mod func;
pub mod lifecycle;
pub mod lower;
pub mod machine;
pub mod parse;
pub mod runner;
pub mod syntax;
pub mod task;
pub mod text;
pub mod types;
pub mod value;

use vstd::prelude::*;
use crate::ast::{stmt_models, AstStmt};
use crate::lower::{lower_stmts, lowered_body};
use crate::env::bound_in;
use crate::func::{AstFunc, AstFuncExpr, FasTaskModel, FuncModel, NativeFunc};
use crate::machine::{
    option_model, stepped, Action, ActionModel, EvalError, GlobalsModel, MachineModel, SpawnRequest,
    WaitingModel,
};
use crate::parse::{parse_stmts, stmts_upto};
use crate::runner::{extended_by, RunnerModel, TaskRunner};
use crate::syntax::{ParseError, ParseNode};
use crate::task::TaskValue;
use crate::value::{value_models, FasValue, ValueModel};

verus! {

/// A function of the host that a script can call.
pub trait FasCallable {
    /// The number of arguments that the function takes.
    fn get_arg_count(&self) -> usize;

    /// Calls the function.
    fn call(&self, args: Vec<FasValue>) -> FasValue;
}

/// Anything that can be turned into a function that a script can call.
pub trait FasToWrapper<U> {
    type Wrapped: FasCallable + 'static;

    fn convert(self) -> Self::Wrapped;
}

/// Why the script's machine has stopped.
#[derive(Debug)]
pub enum Progress {
    /// The script has run to its end.
    Finished,
    /// The script has invoked a task, which has to be scheduled; the script
    /// can go on.
    Spawned(SpawnRequest),
    /// The script awaits the task; it goes on when it is handed the task's
    /// result.
    Blocked(TaskValue),
    /// A statement could not be evaluated; the script goes no further.
    Failed(EvalError),
    /// The script calls a function of the host that the runtime does not
    /// have.
    MissingNative(usize),
    /// The steps allowed were taken; the script can go on.
    OutOfSteps,
}

pub enum ProgressModel {
    Finished,
    Spawned { id: u64, task: FasTaskModel, args: Seq<ValueModel> },
    Blocked(u64),
    Failed(EvalError),
    MissingNative(nat),
    OutOfSteps,
}

impl View for Progress {
    type V = ProgressModel;

    open spec fn view(&self) -> ProgressModel {
        match self {
            Progress::Finished => ProgressModel::Finished,
            Progress::Spawned(request) => ProgressModel::Spawned {
                id: request.shadow@,
                task: request.task@,
                args: value_models(request.args),
            },
            Progress::Blocked(t) => ProgressModel::Blocked(t@),
            Progress::Failed(e) => ProgressModel::Failed(*e),
            Progress::MissingNative(slot) => ProgressModel::MissingNative(*slot as nat),
            Progress::OutOfSteps => ProgressModel::OutOfSteps,
        }
    }
}

/// How a script runs on in a runtime that has `natives` functions of the
/// host, where the calls of such functions return `results`, the first
/// `used` of which have been used up: the global scope and the machine at
/// which it stops, and why it stops.
///
/// The script may take `limit` steps, the first with `input`. After a
/// step that asks for nothing it takes the next. A step that asks for a
/// function of the host which the runtime has is followed at once by the
/// step that takes that function's result, and the two count as one; if
/// the runtime has no such function the script stops there. A step that
/// invokes a task, awaits one, fails, or finds that nothing is left to run
/// stops the script, and so does the end of the steps allowed.
pub open spec fn ran(
    natives: nat,
    g: GlobalsModel,
    m: MachineModel,
    input: Option<ValueModel>,
    results: Seq<ValueModel>,
    used: nat,
    limit: nat,
) -> (GlobalsModel, MachineModel, ProgressModel)
    decreases limit,
{
    if limit == 0 {
        (g, m, ProgressModel::OutOfSteps)
    } else {
        let s = stepped(g, m, input);
        match s.action {
            ActionModel::Continue => ran(
                natives,
                s.globals,
                s.machine,
                None,
                results,
                used,
                (limit - 1) as nat,
            ),
            ActionModel::Idle => ran(
                natives,
                s.globals,
                s.machine,
                None,
                results,
                used,
                (limit - 1) as nat,
            ),
            ActionModel::CallNative { slot, args } => if slot < natives {
                let taken = stepped(s.globals, s.machine, Some(results[used as int]));
                ran(
                    natives,
                    taken.globals,
                    taken.machine,
                    None,
                    results,
                    used + 1,
                    (limit - 1) as nat,
                )
            } else {
                (s.globals, s.machine, ProgressModel::MissingNative(slot))
            },
            ActionModel::Spawn { id, task, args } => (
                s.globals,
                s.machine,
                ProgressModel::Spawned { id, task, args },
            ),
            ActionModel::Await(id) => (s.globals, s.machine, ProgressModel::Blocked(id)),
            ActionModel::Done => (s.globals, s.machine, ProgressModel::Finished),
            ActionModel::Failed(e) => (s.globals, s.machine, ProgressModel::Failed(e)),
        }
    }
}

/// The results begin with those that were seen.
pub open spec fn begins_with(results: Seq<ValueModel>, seen: Seq<ValueModel>) -> bool {
    results.len() >= seen.len() && forall|i: int| 0 <= i < seen.len() ==> results[i] == seen[i]
}

/// The step after one that has asked for a function of the host takes the
/// function's result: the statement that called completes with it, and the
/// step asks for nothing and invokes no task.
pub proof fn lemma_host_result_is_taken(
    g: GlobalsModel,
    m: MachineModel,
    input: Option<ValueModel>,
    result: ValueModel,
)
    requires
        stepped(g, m, input).action is CallNative,
    ensures
        ({
            let asked = stepped(g, m, input);
            let taken = stepped(asked.globals, asked.machine, Some(result));
            &&& taken == crate::machine::finished(
                asked.globals,
                asked.machine,
                result,
                ActionModel::Continue,
            )
            &&& taken.globals.next_task == asked.globals.next_task
            &&& asked.globals.next_task == g.next_task
        }),
{
}

/// A function of the host, as the runtime keeps it.
pub struct NativeSlot {
    callable: Box<dyn FasCallable>,
}

impl NativeSlot {
    /// The slot that keeps the function.
    pub closed spec fn keeping<T: FasCallable + 'static>(f: T) -> NativeSlot {
        NativeSlot { callable: Box::new(f) }
    }

    /// Takes the function into a slot.
    fn holding<T: FasCallable + 'static>(f: T) -> (slot: NativeSlot)
        ensures
            slot == Self::keeping(f),
    {
        NativeSlot { callable: Box::new(f) }
    }
}

/// A runtime: a task runner, and the functions of the host.
pub struct FasRuntime {
    pub runner: TaskRunner,
    natives: Vec<NativeSlot>,
}

impl View for FasRuntime {
    type V = RunnerModel;

    closed spec fn view(&self) -> RunnerModel {
        self.runner@
    }
}

impl FasRuntime {
    /// The number of functions of the host that the runtime has.
    pub closed spec fn native_count(&self) -> nat {
        self.natives.len() as nat
    }

    /// The function of the host that the runtime keeps in the slot.
    pub closed spec fn native_in(&self, slot: int) -> NativeSlot {
        self.natives@[slot]
    }

    /// A runtime with nothing bound and nothing to run.
    pub fn new() -> (runtime: FasRuntime)
        ensures
            runtime@.globals.scope == Seq::<(Seq<char>, ValueModel)>::empty(),
            runtime@.globals.next_task == 0,
            runtime@.machine.frames.len() == 0,
            runtime@.machine.result is None,
            runtime.native_count() == 0,
    {
        FasRuntime { runner: TaskRunner::new(), natives: Vec::new() }
    }

    /// Takes the function of the host into the next slot and binds the name
    /// to it in the global scope.
    fn set_func_impl<T: FasCallable + 'static>(&mut self, func_name: String, f: T)
        ensures
            final(self).native_count() == old(self).native_count() + 1,
            final(self).native_in(old(self).native_count() as int) == NativeSlot::keeping(f),
            forall|i: int|
                0 <= i < old(self).native_count() ==> final(self).native_in(i) == old(self).native_in(i),
            final(self)@.machine == old(self)@.machine,
            final(self)@.globals.next_task == old(self)@.globals.next_task,
            bound_in(final(self)@.globals.scope, func_name@) matches Some(
                ValueModel::Func(FuncModel::Native { slot, .. }),
            ) && slot == old(self).native_count(),
            forall|other: Seq<char>|
                other != func_name@ ==> #[trigger] bound_in(final(self)@.globals.scope, other)
                    == bound_in(old(self)@.globals.scope, other),
    {
        let slot = self.natives.len();
        let arg_count = f.get_arg_count();
        self.natives.push(NativeSlot::holding(f));
        let value = FasValue::Func(
            Box::new(AstFuncExpr { func: AstFunc::NativeFunc(NativeFunc { slot, arg_count }) }),
        );
        proof {
            let scope = self.runner@.globals.scope;
            crate::env::lemma_rebound(scope, func_name@, value@, func_name@);
            assert forall|other: Seq<char>| other != func_name@ implies #[trigger] bound_in(
                crate::env::rebound(scope, func_name@, value@),
                other,
            ) == bound_in(scope, other) by {
                crate::env::lemma_rebound(scope, func_name@, value@, other);
            }
        }
        self.runner.set_global_value(func_name, value);
    }

    /// Makes a function of the host callable from scripts under the name.
    pub fn set_func<T: FasToWrapper<U>, U>(&mut self, func_name: String, f: T)
        ensures
            final(self).native_count() == old(self).native_count() + 1,
            final(self)@.machine == old(self)@.machine,
            final(self)@.globals.next_task == old(self)@.globals.next_task,
            bound_in(final(self)@.globals.scope, func_name@) matches Some(
                ValueModel::Func(FuncModel::Native { slot, .. }),
            ) && slot == old(self).native_count(),
            forall|other: Seq<char>|
                other != func_name@ ==> #[trigger] bound_in(final(self)@.globals.scope, other)
                    == bound_in(old(self)@.globals.scope, other),
            forall|i: int|
                0 <= i < old(self).native_count() ==> final(self).native_in(i) == old(self).native_in(i),
    {
        self.set_func_impl(func_name, f.convert());
    }

    /// Calls the function of the host in the slot, if there is one.
    pub fn call_native(&self, slot: usize, args: Vec<FasValue>) -> (value: Option<FasValue>)
        ensures
            value is Some == (slot < self.native_count()),
    {
        if slot < self.natives.len() {
            Some(self.natives[slot].callable.call(args))
        } else {
            None
        }
    }

    /// Puts the statements at the end of what there is to run, as the
    /// machine takes them: an await of a call in two.
    pub fn run_stmts(&mut self, stmts: &Vec<AstStmt>)
        ensures
            final(self).native_count() == old(self).native_count(),
            final(self)@.globals == old(self)@.globals,
            final(self)@.machine.result == old(self)@.machine.result,
            final(self)@.machine.frames == extended_by(
                old(self)@.machine.frames,
                lowered_body(stmt_models(*stmts), stmts.len() as nat),
                lowered_body(stmt_models(*stmts), stmts.len() as nat).len(),
            ),
    {
        let lowered = lower_stmts(stmts);
        self.runner.eval_stmts(lowered);
    }

    /// Reads the statements of a parsed script and puts them at the end of
    /// what there is to run, as [`FasRuntime::run_stmts`] does. A script
    /// that cannot be read changes nothing.
    pub fn run(&mut self, program: &ParseNode) -> (r: Result<(), ParseError>)
        ensures
            final(self).native_count() == old(self).native_count(),
            final(self)@.globals == old(self)@.globals,
            final(self)@.machine.result == old(self)@.machine.result,
            match stmts_upto(program.children, program.children.len() as nat) {
                Ok(stmts) => r is Ok && final(self)@.machine.frames == extended_by(
                    old(self)@.machine.frames,
                    lowered_body(stmts, stmts.len()),
                    lowered_body(stmts, stmts.len()).len(),
                ),
                Err(e) => r is Err && r->Err_0 == e && final(self)@.machine.frames == old(self)@.machine.frames,
            },
    {
        match parse_stmts(program) {
            Ok(stmts) => {
                self.run_stmts(&stmts);
                Ok(())
            },
            Err(e) => Err(e),
        }
    }

    /// What the script resulted in, once it has run to its end.
    pub fn get_return_value(&self) -> (value: Option<FasValue>)
        ensures
            crate::machine::option_model(value) == self@.machine.result,
    {
        self.runner.get_return_value()
    }

    /// Lets the script take steps, `limit` of them at most, and calls the
    /// functions of the host that it asks for, until the script stops or
    /// needs what only its driver can give: a task scheduled, or the result
    /// of a task, which `input` is when the script was blocked before.
    ///
    /// What the functions of the host return is theirs to say. Whatever
    /// they return, the script runs as [`ran`] says for those results. A
    /// task that is invoked gets the number that was next, and no other
    /// step changes that number.
    pub fn advance(&mut self, input: Option<FasValue>, limit: usize) -> (progress: Progress)
        ensures
            final(self).native_count() == old(self).native_count(),
            exists|results: Seq<ValueModel>|
                (final(self)@.globals, final(self)@.machine, progress@) == #[trigger] ran(
                    old(self).native_count(),
                    old(self)@.globals,
                    old(self)@.machine,
                    option_model(input),
                    results,
                    0,
                    limit as nat,
                ),
            progress matches Progress::Spawned(request) ==> request.shadow@ == old(self)@.globals.next_task && final(self)@.globals.next_task == old(self)@.globals.next_task + 1,
            !(progress is Spawned) ==> final(self)@.globals.next_task == old(self)@.globals.next_task,
            progress is Finished ==> final(self)@.machine.frames.len() == 0,
            progress matches Progress::Blocked(t) ==> final(self)@.machine.frames.len() > 0
                && final(self)@.machine.frames.last().waiting == WaitingModel::Task(t@),
    {
        let ghost n = self.native_count();
        let ghost g0 = self@.globals;
        let ghost m0 = self@.machine;
        let ghost given = option_model(input);
        let ghost mut seen: Seq<ValueModel> = Seq::empty();
        let mut next_input = input;
        let mut steps: usize = 0;
        while steps < limit
            invariant
                steps <= limit,
                self.native_count() == n,
                n == old(self).native_count(),
                g0 == old(self)@.globals,
                m0 == old(self)@.machine,
                given == option_model(input),
                self@.globals.next_task == g0.next_task,
                forall|results: Seq<ValueModel>|
                    begins_with(results, seen) ==> #[trigger] ran(
                        n,
                        g0,
                        m0,
                        given,
                        results,
                        0,
                        limit as nat,
                    ) == ran(
                        n,
                        self@.globals,
                        self@.machine,
                        option_model(next_input),
                        results,
                        seen.len(),
                        (limit - steps) as nat,
                    ),
            decreases limit - steps,
        {
            let ghost before = self@;
            let ghost taken = option_model(next_input);
            let ghost left = (limit - steps) as nat;
            let action = self.runner.step(next_input);
            let ghost asked = self@;
            proof {
                crate::machine::lemma_step_numbers_tasks(before.globals, before.machine, taken);
            }
            next_input = None;
            match action {
                Action::Continue => {},
                Action::Idle => {},
                Action::CallNative { slot, args } => {
                    match self.call_native(slot, args) {
                        Some(v) => {
                            let ghost result = v@;
                            let ghost earlier = seen;
                            let _ = self.runner.step(Some(v));
                            proof {
                                lemma_host_result_is_taken(
                                    before.globals,
                                    before.machine,
                                    taken,
                                    result,
                                );
                                seen = earlier.push(result);
                                assert forall|results: Seq<ValueModel>|
                                    begins_with(results, seen) implies #[trigger] ran(
                                    n,
                                    g0,
                                    m0,
                                    given,
                                    results,
                                    0,
                                    limit as nat,
                                ) == ran(
                                    n,
                                    self@.globals,
                                    self@.machine,
                                    None,
                                    results,
                                    seen.len(),
                                    (left - 1) as nat,
                                ) by {
                                    assert(begins_with(results, earlier));
                                    assert(results[earlier.len() as int] == seen[earlier.len() as int]);
                                }
                            }
                        },
                        None => {
                            let progress = Progress::MissingNative(slot);
                            proof {
                                assert(begins_with(seen, seen));
                                assert(ran(n, g0, m0, given, seen, 0, limit as nat) == ran(
                                    n,
                                    before.globals,
                                    before.machine,
                                    taken,
                                    seen,
                                    seen.len(),
                                    left,
                                ));
                                assert((self@.globals, self@.machine, progress@) == ran(
                                    n,
                                    g0,
                                    m0,
                                    given,
                                    seen,
                                    0,
                                    limit as nat,
                                ));
                            }
                            return progress;
                        },
                    }
                },
                Action::Spawn(request) => {
                    let progress = Progress::Spawned(request);
                    proof {
                        assert(begins_with(seen, seen));
                        assert(ran(n, g0, m0, given, seen, 0, limit as nat) == ran(
                            n,
                            before.globals,
                            before.machine,
                            taken,
                            seen,
                            seen.len(),
                            left,
                        ));
                        assert((self@.globals, self@.machine, progress@) == ran(
                            n,
                            g0,
                            m0,
                            given,
                            seen,
                            0,
                            limit as nat,
                        ));
                    }
                    return progress;
                },
                Action::Await(task) => {
                    let progress = Progress::Blocked(task);
                    proof {
                        assert(begins_with(seen, seen));
                        assert(ran(n, g0, m0, given, seen, 0, limit as nat) == ran(
                            n,
                            before.globals,
                            before.machine,
                            taken,
                            seen,
                            seen.len(),
                            left,
                        ));
                        assert((self@.globals, self@.machine, progress@) == ran(
                            n,
                            g0,
                            m0,
                            given,
                            seen,
                            0,
                            limit as nat,
                        ));
                    }
                    return progress;
                },
                Action::Done => {
                    let progress = Progress::Finished;
                    proof {
                        assert(begins_with(seen, seen));
                        assert(ran(n, g0, m0, given, seen, 0, limit as nat) == ran(
                            n,
                            before.globals,
                            before.machine,
                            taken,
                            seen,
                            seen.len(),
                            left,
                        ));
                        assert((self@.globals, self@.machine, progress@) == ran(
                            n,
                            g0,
                            m0,
                            given,
                            seen,
                            0,
                            limit as nat,
                        ));
                    }
                    return progress;
                },
                Action::Failed(e) => {
                    let progress = Progress::Failed(e);
                    proof {
                        assert(begins_with(seen, seen));
                        assert(ran(n, g0, m0, given, seen, 0, limit as nat) == ran(
                            n,
                            before.globals,
                            before.machine,
                            taken,
                            seen,
                            seen.len(),
                            left,
                        ));
                        assert((self@.globals, self@.machine, progress@) == ran(
                            n,
                            g0,
                            m0,
                            given,
                            seen,
                            0,
                            limit as nat,
                        ));
                    }
                    return progress;
                },
            }
            steps = steps + 1;
        }
        let progress = Progress::OutOfSteps;
        proof {
            assert(begins_with(seen, seen));
            assert((self@.globals, self@.machine, progress@) == ran(
                n,
                g0,
                m0,
                given,
                seen,
                0,
                limit as nat,
            ));
        }
        progress
    }
}

} // verus!

use std::cell::Cell;
use std::rc::Rc;

use fascript::ast::{AstExpr, AstStmt};
use fascript::execution::{TaskExecution, TaskStep};
use fascript::func::{AstAnnoPart, AstFunc, AstFuncExpr, FasFunc, FasTask, NativeFunc};
use fascript::machine::{Action, EvalError, SpawnRequest};
use fascript::task::{AwaitEnd, TaskControl, TaskResult};
use fascript::value::FasValue;
use fascript::{FasCallable, FasRuntime, FasToWrapper, Progress};

struct Counting {
    calls: Rc<Cell<usize>>,
    args: usize,
}

impl FasCallable for Counting {
    fn get_arg_count(&self) -> usize {
        self.args
    }

    fn call(&self, args: Vec<FasValue>) -> FasValue {
        self.calls.set(self.calls.get() + 1);
        match args.into_iter().next() {
            Some(v) => v,
            None => FasValue::Null,
        }
    }
}

impl FasToWrapper<()> for Counting {
    type Wrapped = Counting;

    fn convert(self) -> Counting {
        self
    }
}

fn id(name: &str) -> AstExpr {
    AstExpr::Id(name.to_string())
}

fn text(s: &str) -> AstExpr {
    AstExpr::Str(s.to_string())
}

fn call(name: &str, args: Vec<AstExpr>) -> AstExpr {
    AstExpr::Call { name: name.to_string(), args }
}

fn assign(name: &str, value: AstExpr) -> AstStmt {
    AstStmt::Assign { name: name.to_string(), value }
}

fn anno(kind: &str, expr: AstExpr) -> AstAnnoPart {
    AstAnnoPart { anno_type: kind.to_string(), anno_expr: expr }
}

fn task(name: &str, annotations: Vec<AstAnnoPart>, args: &[&str], body: Vec<AstStmt>) -> AstStmt {
    AstStmt::Define(AstFunc::FasTask(FasTask {
        annotations,
        name: name.to_string(),
        arg_names: args.iter().map(|a| a.to_string()).collect(),
        body_stmts: body,
    }))
}

fn func(name: &str, args: &[&str], body: Vec<AstStmt>) -> AstStmt {
    AstStmt::Define(AstFunc::FasFunc(FasFunc {
        name: name.to_string(),
        arg_names: args.iter().map(|a| a.to_string()).collect(),
        body_stmts: body,
    }))
}

/// Runs a task to its end, as a scheduler would, and says what it reported.
fn drive(runtime: &mut FasRuntime, request: SpawnRequest) -> (TaskExecution, usize) {
    let mut execution = TaskExecution::new(request, &runtime.runner.globals.scope);
    let mut input: Option<FasValue> = None;
    let mut yields = 0;
    for _ in 0..100_000 {
        match execution.step(&mut runtime.runner.globals, input.take()) {
            TaskStep::Continue => {}
            TaskStep::CallNative { slot, args } => {
                input = runtime.call_native(slot, args);
                assert!(input.is_some());
            }
            TaskStep::Spawn(inner) => {
                drive(runtime, inner);
            }
            TaskStep::Await(handle) => {
                input = handle.try_await(1000).result();
                assert!(input.is_some());
            }
            TaskStep::Yield => {
                yields += 1;
                if yields > 1000 {
                    return (execution, yields);
                }
            }
            TaskStep::Ended => return (execution, yields),
        }
    }
    panic!("the task did not end");
}

/// Runs the script to its end, each task as soon as it is invoked.
fn run(runtime: &mut FasRuntime, stmts: Vec<AstStmt>) -> Result<Option<FasValue>, EvalError> {
    runtime.run_stmts(&stmts);
    let mut input: Option<FasValue> = None;
    for _ in 0..100_000 {
        match runtime.advance(input.take(), 1000) {
            Progress::Finished => return Ok(runtime.get_return_value()),
            Progress::Spawned(request) => {
                drive(runtime, request);
            }
            Progress::Blocked(handle) => {
                input = handle.try_await(1000).result();
                assert!(input.is_some());
            }
            Progress::Failed(e) => return Err(e),
            Progress::MissingNative(slot) => panic!("no native in slot {}", slot),
            Progress::OutOfSteps => {}
        }
    }
    panic!("the script did not end");
}

fn runtime_with_println() -> (FasRuntime, Rc<Cell<usize>>) {
    let calls = Rc::new(Cell::new(0));
    let mut runtime = FasRuntime::new();
    runtime.set_func("os.println".to_string(), Counting { calls: calls.clone(), args: 1 });
    (runtime, calls)
}

#[test]
fn a_task_that_does_not_fail_runs_once_whatever_it_may_retry() {
    let (mut runtime, calls) = runtime_with_println();
    let script = vec![
        task(
            "f",
            vec![anno("retry", AstExpr::Int(3))],
            &[],
            vec![AstStmt::Expr(call("os.println", vec![text("x")]))],
        ),
        AstStmt::Expr(AstExpr::Await(Box::new(call("f", vec![])))),
    ];
    let result = run(&mut runtime, script).unwrap();
    assert_eq!(calls.get(), 1);
    assert!(result == Some(FasValue::String("x".to_string())));
}

#[test]
fn a_task_that_always_fails_is_begun_once_more_than_it_may_retry() {
    let (mut runtime, calls) = runtime_with_println();
    runtime.runner.eval_stmt(task(
        "f",
        vec![anno("retry", AstExpr::Int(2))],
        &[],
        vec![
            AstStmt::Expr(call("os.println", vec![text("before")])),
            AstStmt::Expr(call("missing", vec![])),
            AstStmt::Expr(call("os.println", vec![text("after")])),
        ],
    ));
    runtime.runner.eval_stmt(assign("t", call("f", vec![])));
    runtime.runner.eval_stmt(AstStmt::Expr(id("t")));
    let (request, _) = invoke(&mut runtime, "t");
    let (execution, _) = drive(&mut runtime, request);
    assert_eq!(calls.get(), 3);
    assert_eq!(execution.progress.retries_used, 2);
    match &execution.reported {
        Some(TaskResult::Finish(v)) => {
            assert!(*v == FasValue::String("error: a name is not bound".to_string()))
        }
        other => panic!("unexpected {:?}", other),
    }
    runtime.runner.eval_stmt(AstStmt::Return(AstExpr::Await(Box::new(id("t")))));
    let result = run(&mut runtime, vec![]).unwrap();
    assert!(result == Some(FasValue::String("error: a name is not bound".to_string())));
}

#[test]
fn a_degradation_gives_the_value_of_a_task_that_cannot_complete() {
    let (mut runtime, calls) = runtime_with_println();
    let script = vec![
        task(
            "f",
            vec![anno("retry", AstExpr::Int(1)), anno("degradation", AstExpr::Int(42))],
            &[],
            vec![
                AstStmt::Expr(call("os.println", vec![text("try")])),
                AstStmt::Expr(call("missing", vec![])),
            ],
        ),
        assign("t", call("f", vec![])),
        AstStmt::Return(AstExpr::Await(Box::new(id("t")))),
    ];
    let result = run(&mut runtime, script).unwrap();
    assert_eq!(calls.get(), 2);
    assert!(result == Some(FasValue::Int(42)));
}

#[test]
fn every_invocation_gets_a_handle_of_its_own() {
    let (mut runtime, _) = runtime_with_println();
    runtime.runner.eval_stmt(task("f", vec![], &[], vec![]));
    runtime.runner.eval_stmt(assign("a", call("f", vec![])));
    runtime.runner.eval_stmt(assign("b", call("f", vec![])));
    let mut ids = vec![];
    loop {
        match runtime.advance(None, 100) {
            Progress::Spawned(request) => ids.push(request.shadow.id()),
            Progress::Finished => break,
            other => panic!("unexpected {:?}", other),
        }
    }
    assert_eq!(ids, vec![0, 1]);
    assert_eq!(runtime.runner.globals.next_task, 2);
}

#[test]
fn a_paused_task_goes_on_only_after_it_is_resumed() {
    let (mut runtime, calls) = runtime_with_println();
    runtime.runner.eval_stmt(task(
        "f",
        vec![
            anno("pause", call("os.println", vec![text("pausing")])),
            anno("resume", call("os.println", vec![text("resuming")])),
        ],
        &[],
        vec![
            AstStmt::Expr(call("os.println", vec![text("one")])),
            AstStmt::Expr(call("os.println", vec![text("two")])),
        ],
    ));
    runtime.runner.eval_stmt(assign("t", call("f", vec![])));
    runtime.runner.eval_stmt(AstStmt::Expr(id("t")));
    let (request, handle) = invoke(&mut runtime, "t");
    assert!(handle.send(TaskControl::Pause));
    let (mut execution, yields) = {
        let mut execution = TaskExecution::new(request, &runtime.runner.globals.scope);
        let mut input: Option<FasValue> = None;
        let mut yields = 0;
        while yields < 5 {
            match execution.step(&mut runtime.runner.globals, input.take()) {
                TaskStep::CallNative { slot, args } => input = runtime.call_native(slot, args),
                TaskStep::Yield => yields += 1,
                TaskStep::Ended => panic!("the task ended while it was paused"),
                _ => {}
            }
        }
        (execution, yields)
    };
    assert_eq!(yields, 5);
    assert_eq!(calls.get(), 1);
    assert_eq!(execution.progress.next, 0);
    assert!(handle.send(TaskControl::Resume));
    let mut input: Option<FasValue> = None;
    loop {
        match execution.step(&mut runtime.runner.globals, input.take()) {
            TaskStep::CallNative { slot, args } => input = runtime.call_native(slot, args),
            TaskStep::Ended => break,
            TaskStep::Yield => panic!("the task did not go on"),
            _ => {}
        }
    }
    assert_eq!(calls.get(), 4);
    assert!(matches!(execution.reported, Some(TaskResult::Finish(_))));
    assert!(matches!(handle.try_await(10).end, AwaitEnd::Finished(_)));
}

/// Queues the script, runs it until it has invoked a task and bound the
/// handle to `name`, and gives the task and the handle.
fn invoke(runtime: &mut FasRuntime, name: &str) -> (SpawnRequest, fascript::task::TaskValue) {
    let request = loop {
        match runtime.advance(None, 100) {
            Progress::Spawned(request) => break request,
            Progress::Finished => panic!("no task was invoked"),
            _ => {}
        }
    };
    let handle = match fascript::machine::lookup(
        &runtime.runner.globals.scope,
        &runtime.runner.machine.frames,
        name,
    ) {
        Some(FasValue::Task(h)) => h,
        other => panic!("unexpected {:?}", other),
    };
    assert_eq!(handle.id(), request.shadow.id());
    (request, handle)
}

#[test]
fn a_cancelled_task_stops_and_reports_it() {
    let (mut runtime, calls) = runtime_with_println();
    runtime.runner.eval_stmt(task(
        "f",
        vec![anno("rollback", call("os.println", vec![text("undo")]))],
        &[],
        vec![AstStmt::Expr(call("os.println", vec![text("one")]))],
    ));
    runtime.runner.eval_stmt(assign("a", call("f", vec![])));
    runtime.runner.eval_stmt(AstStmt::Return(AstExpr::Await(Box::new(id("a")))));
    let (request, handle) = invoke(&mut runtime, "a");
    assert!(handle.send(TaskControl::Cancel));
    let (execution, _) = drive(&mut runtime, request);
    assert!(matches!(execution.reported, Some(TaskResult::Canceled)));
    assert_eq!(calls.get(), 0);
    assert!(run(&mut runtime, vec![]).unwrap() == Some(FasValue::Null));
}

#[test]
fn a_rolled_back_task_evaluates_its_rollback_and_reports_it() {
    let (mut runtime, calls) = runtime_with_println();
    runtime.runner.eval_stmt(task(
        "f",
        vec![anno("rollback", call("os.println", vec![text("undo")]))],
        &[],
        vec![AstStmt::Expr(call("os.println", vec![text("one")]))],
    ));
    runtime.runner.eval_stmt(assign("a", call("f", vec![])));
    let (request, handle) = invoke(&mut runtime, "a");
    assert!(handle.send(TaskControl::Pause));
    assert!(handle.send(TaskControl::Rollback));
    let (execution, _) = drive(&mut runtime, request);
    assert!(matches!(execution.reported, Some(TaskResult::Rolledback)));
    assert_eq!(calls.get(), 1);
    assert!(matches!(handle.try_await(10).end, AwaitEnd::Rolledback));
}

#[test]
fn functions_bind_their_parameters_and_return_early() {
    let (mut runtime, calls) = runtime_with_println();
    let script = vec![
        func(
            "pick",
            &["a", "b"],
            vec![
                AstStmt::Return(id("b")),
                AstStmt::Expr(call("os.println", vec![text("never")])),
            ],
        ),
        assign("x", call("pick", vec![AstExpr::Int(1), AstExpr::Int(2)])),
        AstStmt::Expr(id("x")),
    ];
    let result = run(&mut runtime, script).unwrap();
    assert!(result == Some(FasValue::Int(2)));
    assert_eq!(calls.get(), 0);
}

#[test]
fn names_are_looked_up_from_the_innermost_scope_outwards() {
    let (mut runtime, _) = runtime_with_println();
    runtime.runner.set_global_value("g".to_string(), FasValue::Int(1));
    let script = vec![
        func(
            "inner",
            &["p"],
            vec![
                assign("g", AstExpr::Int(10)),
                assign("local", AstExpr::Int(5)),
                assign("outer", AstExpr::Int(7)),
                AstStmt::Return(id("p")),
            ],
        ),
        assign("outer", AstExpr::Int(0)),
        AstStmt::Expr(call("inner", vec![AstExpr::Int(3)])),
        assign("seen", id("outer")),
    ];
    for stmt in script {
        runtime.runner.eval_stmt(stmt);
    }
    for _ in 0..100 {
        let frames = runtime.runner.machine.frames.len();
        if frames == 1 && runtime.runner.machine.frames[0].next == 4 {
            break;
        }
        assert!(matches!(runtime.advance(None, 1), Progress::OutOfSteps));
    }
    assert!(runtime.runner.get_global_value("g") == Some(FasValue::Int(10)));
    assert!(runtime.runner.get_global_value("local").is_none());
    assert!(runtime.runner.get_global_value("outer").is_none());
    let frames = &runtime.runner.machine.frames;
    assert_eq!(frames.len(), 1);
    assert!(frames[0].scope.get("outer") == Some(FasValue::Int(7)));
    assert!(frames[0].scope.get("seen") == Some(FasValue::Int(7)));
    assert!(frames[0].scope.get("local").is_none());
}

#[test]
fn statements_that_cannot_be_evaluated_fail_with_their_reason() {
    let cases: Vec<(Vec<AstStmt>, EvalError)> = vec![
        (vec![AstStmt::Expr(id("nobody"))], EvalError::Unbound),
        (vec![AstStmt::Expr(call("nobody", vec![]))], EvalError::Unbound),
        (
            vec![assign("x", AstExpr::Int(1)), AstStmt::Expr(call("x", vec![]))],
            EvalError::NotCallable,
        ),
        (vec![AstStmt::Expr(call("os.println", vec![]))], EvalError::WrongArity),
        (
            vec![AstStmt::Expr(AstExpr::Await(Box::new(AstExpr::Int(1))))],
            EvalError::NotATask,
        ),
        (
            vec![AstStmt::Expr(call("os.println", vec![call("os.println", vec![text("x")])]))],
            EvalError::NotAnOperand,
        ),
    ];
    for (script, expected) in cases {
        let (mut runtime, _) = runtime_with_println();
        assert_eq!(run(&mut runtime, script), Err(expected));
        assert!(runtime.get_return_value().is_none());
    }
}

#[test]
fn a_script_results_in_the_value_of_its_last_statement() {
    let (mut runtime, _) = runtime_with_println();
    assert!(run(&mut runtime, vec![]).unwrap().is_none());
    let (mut runtime, _) = runtime_with_println();
    let result = run(&mut runtime, vec![AstStmt::Expr(AstExpr::Int(1)), AstStmt::Expr(text("end"))]);
    assert!(result.unwrap() == Some(FasValue::String("end".to_string())));
    let (mut runtime, _) = runtime_with_println();
    let result = run(
        &mut runtime,
        vec![AstStmt::Return(AstExpr::Bool(true)), AstStmt::Expr(AstExpr::Int(1))],
    );
    assert!(result.unwrap() == Some(FasValue::Bool(true)));
}

#[test]
fn the_machine_asks_for_what_it_cannot_do_itself() {
    let (mut runtime, _) = runtime_with_println();
    runtime.runner.eval_stmt(AstStmt::Expr(call("os.println", vec![text("x")])));
    match runtime.runner.step(None) {
        Action::CallNative { slot, args } => {
            assert_eq!(slot, 0);
            assert!(args == vec![FasValue::String("x".to_string())]);
        }
        other => panic!("unexpected {:?}", other),
    }
    assert!(matches!(runtime.runner.step(None), Action::Idle));
    assert!(matches!(runtime.runner.step(Some(FasValue::Int(9))), Action::Continue));
    assert!(matches!(runtime.runner.step(None), Action::Continue));
    assert!(matches!(runtime.runner.step(None), Action::Done));
    assert!(runtime.get_return_value() == Some(FasValue::Int(9)));
}

#[test]
fn an_await_of_a_call_is_taken_apart() {
    let stmts = vec![
        AstStmt::Return(AstExpr::Await(Box::new(call("f", vec![id("x")])))),
        AstStmt::Expr(AstExpr::Await(Box::new(id("t")))),
        func("g", &[], vec![assign("r", AstExpr::Await(Box::new(call("f", vec![]))))]),
    ];
    let lowered = fascript::lower::lower_stmts(&stmts);
    assert_eq!(lowered.len(), 4);
    match &lowered[0] {
        AstStmt::Assign { name, value: AstExpr::Call { name: callee, args } } => {
            assert_eq!(name, "$awaited");
            assert_eq!(callee, "f");
            assert_eq!(args.len(), 1);
        }
        other => panic!("unexpected {:?}", other),
    }
    match &lowered[1] {
        AstStmt::Return(AstExpr::Await(inner)) => {
            assert!(matches!(&**inner, AstExpr::Id(n) if n == "$awaited"))
        }
        other => panic!("unexpected {:?}", other),
    }
    match &lowered[2] {
        AstStmt::Expr(AstExpr::Await(inner)) => assert!(matches!(&**inner, AstExpr::Id(n) if n == "t")),
        other => panic!("unexpected {:?}", other),
    }
    match &lowered[3] {
        AstStmt::Define(AstFunc::FasFunc(g)) => {
            assert_eq!(g.body_stmts.len(), 2);
            assert!(matches!(&g.body_stmts[1], AstStmt::Assign { name, .. } if name == "r"));
        }
        other => panic!("unexpected {:?}", other),
    }
}

#[test]
fn no_task_is_invoked_when_no_number_is_left() {
    let (mut runtime, _) = runtime_with_println();
    runtime.runner.globals.next_task = u64::MAX;
    let script = vec![task("f", vec![], &[], vec![]), AstStmt::Expr(call("f", vec![]))];
    assert_eq!(run(&mut runtime, script), Err(EvalError::TooManyTasks));
    assert_eq!(runtime.runner.globals.next_task, u64::MAX);
}

#[test]
fn a_call_of_a_host_function_that_is_not_there_stops_the_script() {
    let (mut runtime, _) = runtime_with_println();
    runtime.runner.set_global_value(
        "ghost".to_string(),
        FasValue::Func(Box::new(AstFuncExpr {
            func: AstFunc::NativeFunc(NativeFunc { slot: 99, arg_count: 0 }),
        })),
    );
    runtime.run_stmts(&vec![AstStmt::Expr(call("ghost", vec![]))]);
    assert!(matches!(runtime.advance(None, 10), Progress::MissingNative(99)));
    assert!(runtime.call_native(99, vec![]).is_none());
    assert!(runtime.call_native(0, vec![FasValue::Int(1)]) == Some(FasValue::Int(1)));
}

#[test]
fn a_task_that_breaks_a_rule_of_the_language_is_not_begun_again() {
    let (mut runtime, calls) = runtime_with_println();
    runtime.runner.eval_stmt(task(
        "f",
        vec![anno("retry", AstExpr::Int(3))],
        &[],
        vec![
            AstStmt::Expr(call("os.println", vec![text("once")])),
            AstStmt::Expr(call("os.println", vec![call("os.println", vec![text("x")])])),
        ],
    ));
    runtime.runner.eval_stmt(assign("t", call("f", vec![])));
    runtime.runner.eval_stmt(AstStmt::Expr(id("t")));
    let (request, handle) = invoke(&mut runtime, "t");
    let (execution, _) = drive(&mut runtime, request);
    assert_eq!(calls.get(), 1);
    assert_eq!(execution.progress.retries_used, 0);
    assert_eq!(execution.policy.retry, 3);
    assert!(
        handle.try_await(10).result()
            == Some(FasValue::String("error: an operand is a call or an await".to_string()))
    );
}

#[test]
fn a_retry_count_that_is_no_count_allows_no_retry() {
    for expr in [AstExpr::Int(-1), AstExpr::Bool(true), id("nobody"), text("3")] {
        let (mut runtime, _) = runtime_with_println();
        runtime.runner.eval_stmt(task("f", vec![anno("retry", expr)], &[], vec![]));
        runtime.runner.eval_stmt(assign("t", call("f", vec![])));
        runtime.runner.eval_stmt(AstStmt::Expr(id("t")));
        let (request, _) = invoke(&mut runtime, "t");
        let execution = TaskExecution::new(request, &runtime.runner.globals.scope);
        assert_eq!(execution.policy.retry, 0);
        assert!(!execution.policy.has_degradation);
    }
    let (mut runtime, _) = runtime_with_println();
    runtime.runner.set_global_value("n".to_string(), FasValue::Int(4));
    runtime.runner.eval_stmt(task("f", vec![anno("retry", id("n"))], &["a"], vec![
        AstStmt::Return(id("a")),
    ]));
    runtime.runner.eval_stmt(assign("t", call("f", vec![AstExpr::Int(8)])));
    runtime.runner.eval_stmt(AstStmt::Expr(id("t")));
    let (request, handle) = invoke(&mut runtime, "t");
    let (execution, _) = drive(&mut runtime, request);
    assert_eq!(execution.policy.retry, 4);
    assert!(handle.try_await(10).result() == Some(FasValue::Int(8)));
}

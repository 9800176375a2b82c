//! Statements as the machine takes them: an await of a call in two.
//!
//! The machine awaits an operand. A statement that awaits a call is
//! therefore taken apart into an assignment of the call to a name that no
//! script can write, and the statement itself, which awaits that name.

use vstd::prelude::*;
use vstd::string::*;
use crate::ast::{copy_expr, copy_names, stmt_models, AstExpr, AstStmt, ExprModel, StmtModel};
use crate::func::{copy_annos, AstFunc, FasFunc, FasFuncModel, FasTask, FasTaskModel, FuncModel};

verus! {

/// The name that holds the task of an await of a call.
pub open spec fn awaited_name() -> Seq<char> {
    "$awaited"@
}

/// The expression with the bodies of the functions in it lowered.
pub open spec fn lowered_expr(e: ExprModel) -> ExprModel
    decreases e,
{
    match e {
        ExprModel::Call { name, args } => ExprModel::Call {
            name,
            args: Seq::new(
                args.len(),
                |i: int|
                    if 0 <= i < args.len() {
                        lowered_expr(args[i])
                    } else {
                        ExprModel::Empty
                    },
            ),
        },
        ExprModel::Await(inner) => ExprModel::Await(Box::new(lowered_expr(*inner))),
        ExprModel::Lambda(f) => ExprModel::Lambda(Box::new(lowered_func(*f))),
        other => other,
    }
}

/// The function or task with its body lowered.
pub open spec fn lowered_func(f: FuncModel) -> FuncModel
    decreases f,
{
    match f {
        FuncModel::Native { slot, arg_count } => FuncModel::Native { slot, arg_count },
        FuncModel::Func(func) => FuncModel::Func(
            FasFuncModel {
                name: func.name,
                arg_names: func.arg_names,
                body: lowered_body(func.body, func.body.len()),
            },
        ),
        FuncModel::Task(task) => FuncModel::Task(
            FasTaskModel {
                annotations: task.annotations,
                name: task.name,
                arg_names: task.arg_names,
                body: lowered_body(task.body, task.body.len()),
            },
        ),
    }
}

/// The first `n` statements, lowered, one after the other.
pub open spec fn lowered_body(stmts: Seq<StmtModel>, n: nat) -> Seq<StmtModel>
    decreases stmts, n,
{
    if n == 0 || n > stmts.len() {
        Seq::empty()
    } else {
        lowered_body(stmts, (n - 1) as nat) + lowered_stmt(stmts[n - 1])
    }
}

/// Whether the expression awaits a call.
pub open spec fn awaits_call(e: ExprModel) -> bool {
    e matches ExprModel::Await(inner) && *inner is Call
}

/// The await of the name that holds the task.
pub open spec fn await_of_name() -> ExprModel {
    ExprModel::Await(Box::new(ExprModel::Id(awaited_name())))
}

/// The assignment of the call that the expression awaits to the name that
/// holds the task.
pub open spec fn call_first(e: ExprModel) -> StmtModel {
    StmtModel::Assign { name: awaited_name(), value: *e->Await_0 }
}

/// The statement as the machine takes it: in two where it awaits a call,
/// and with the functions in it lowered.
pub open spec fn lowered_stmt(s: StmtModel) -> Seq<StmtModel>
    decreases s,
{
    match s {
        StmtModel::Expr(e) => if awaits_call(lowered_expr(e)) {
            seq![call_first(lowered_expr(e)), StmtModel::Expr(await_of_name())]
        } else {
            seq![StmtModel::Expr(lowered_expr(e))]
        },
        StmtModel::Assign { name, value } => if awaits_call(lowered_expr(value)) {
            seq![
                call_first(lowered_expr(value)),
                StmtModel::Assign { name, value: await_of_name() },
            ]
        } else {
            seq![StmtModel::Assign { name, value: lowered_expr(value) }]
        },
        StmtModel::Return(e) => if awaits_call(lowered_expr(e)) {
            seq![call_first(lowered_expr(e)), StmtModel::Return(await_of_name())]
        } else {
            seq![StmtModel::Return(lowered_expr(e))]
        },
        StmtModel::Define(f) => seq![StmtModel::Define(lowered_func(f))],
    }
}

/// Lowers the functions in an expression.
pub fn lower_expr(e: &AstExpr) -> (r: AstExpr)
    ensures
        r@ == lowered_expr(e@),
    decreases e,
{
    match e {
        AstExpr::Call { name, args } => {
            let mut out: Vec<AstExpr> = Vec::new();
            let mut i: usize = 0;
            while i < args.len()
                invariant
                    i <= args.len(),
                    out.len() == i,
                    forall|j: int| 0 <= j < i ==> out[j]@ == lowered_expr(args[j]@),
                    e matches AstExpr::Call { args: a, .. } && a == args,
                decreases args.len() - i,
            {
                out.push(lower_expr(&args[i]));
                i = i + 1;
            }
            let r = AstExpr::Call { name: name.clone(), args: out };
            proof {
                assert(r@->Call_args =~= lowered_expr(e@)->Call_args);
            }
            r
        },
        AstExpr::Await(inner) => AstExpr::Await(Box::new(lower_expr(&**inner))),
        AstExpr::Lambda(f) => {
            let r = AstExpr::Lambda(Box::new(lower_func(&**f)));
            proof {
                reveal_with_fuel(AstExpr::model, 2);
            }
            r
        },
        other => copy_expr(other),
    }
}

/// Lowers the body of a function or of a task.
pub fn lower_func(f: &AstFunc) -> (r: AstFunc)
    ensures
        r@ == lowered_func(f@),
    decreases f,
{
    match f {
        AstFunc::NativeFunc(n) => AstFunc::NativeFunc(*n),
        AstFunc::FasFunc(func) => AstFunc::FasFunc(
            FasFunc {
                name: func.name.clone(),
                arg_names: copy_names(&func.arg_names),
                body_stmts: lower_stmts(&func.body_stmts),
            },
        ),
        AstFunc::FasTask(task) => AstFunc::FasTask(
            FasTask {
                annotations: copy_annos(&task.annotations),
                name: task.name.clone(),
                arg_names: copy_names(&task.arg_names),
                body_stmts: lower_stmts(&task.body_stmts),
            },
        ),
    }
}

/// The assignment of the call that `e` awaits, and what is left of `e`.
fn split_await(e: AstExpr) -> (r: (Option<AstStmt>, AstExpr))
    ensures
        awaits_call(e@) ==> r.0 is Some && r.0->Some_0@ == call_first(e@) && r.1@
            == await_of_name(),
        !awaits_call(e@) ==> r.0 is None && r.1@ == e@,
{
    match e {
        AstExpr::Await(inner) => {
            let is_call = match &*inner {
                AstExpr::Call { .. } => true,
                _ => false,
            };
            if is_call {
                let first = AstStmt::Assign {
                    name: String::from_str("$awaited"),
                    value: *inner,
                };
                let rest = AstExpr::Await(Box::new(AstExpr::Id(String::from_str("$awaited"))));
                proof {
                    reveal_with_fuel(AstExpr::model, 3);
                    reveal_with_fuel(AstStmt::model, 3);
                    assert(first@ == call_first(e@));
                    assert(rest@ == await_of_name());
                }
                (Some(first), rest)
            } else {
                (None, AstExpr::Await(inner))
            }
        },
        other => (None, other),
    }
}

/// Lowers a statement and puts what it becomes at the end of `out`.
pub fn lower_stmt(s: &AstStmt, out: &mut Vec<AstStmt>)
    ensures
        stmt_models(*final(out)) == stmt_models(*old(out)) + lowered_stmt(s@),
    decreases s,
{
    let ghost before = stmt_models(*out);
    match s {
        AstStmt::Expr(e) => {
            let (first, rest) = split_await(lower_expr(e));
            match first {
                Some(call) => {
                    out.push(call);
                    out.push(AstStmt::Expr(rest));
                },
                None => {
                    out.push(AstStmt::Expr(rest));
                },
            }
        },
        AstStmt::Assign { name, value } => {
            let (first, rest) = split_await(lower_expr(value));
            match first {
                Some(call) => {
                    out.push(call);
                    out.push(AstStmt::Assign { name: name.clone(), value: rest });
                },
                None => {
                    out.push(AstStmt::Assign { name: name.clone(), value: rest });
                },
            }
        },
        AstStmt::Return(e) => {
            let (first, rest) = split_await(lower_expr(e));
            match first {
                Some(call) => {
                    out.push(call);
                    out.push(AstStmt::Return(rest));
                },
                None => {
                    out.push(AstStmt::Return(rest));
                },
            }
        },
        AstStmt::Define(f) => {
            out.push(AstStmt::Define(lower_func(f)));
        },
    }
    proof {
        assert(stmt_models(*out) =~= before + lowered_stmt(s@));
    }
}

/// Lowers the statements, in order.
pub fn lower_stmts(stmts: &Vec<AstStmt>) -> (r: Vec<AstStmt>)
    ensures
        stmt_models(r) == lowered_body(stmt_models(*stmts), stmts.len() as nat),
    decreases stmts,
{
    let ghost models = stmt_models(*stmts);
    let mut out: Vec<AstStmt> = Vec::new();
    let mut i: usize = 0;
    proof {
        assert(stmt_models(out) =~= Seq::<StmtModel>::empty());
    }
    while i < stmts.len()
        invariant
            i <= stmts.len(),
            models == stmt_models(*stmts),
            stmt_models(out) == lowered_body(models, i as nat),
        decreases stmts.len() - i,
    {
        proof {
            assert(models[i as int] == stmts[i as int]@);
        }
        lower_stmt(&stmts[i], &mut out);
        i = i + 1;
    }
    out
}

} // verus!

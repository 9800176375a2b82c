//! The abstract syntax that the runner evaluates: expressions, statements and
//! the definitions of functions and tasks.

use vstd::prelude::*;
use crate::float::FasFloat;
use crate::func::{AstFunc, FuncModel, copy_func};

verus! {

/// An expression.
#[derive(Debug)]
pub enum AstExpr {
    /// No expression at all.
    Empty,
    Null,
    Bool(bool),
    Int(i64),
    Float(FasFloat),
    Str(String),
    /// The value bound to a name.
    Id(String),
    /// A call of the function or task bound to `name`.
    Call { name: String, args: Vec<AstExpr> },
    /// The result of the task that the operand evaluates to.
    Await(Box<AstExpr>),
    /// A function without a name.
    Lambda(Box<AstFunc>),
}

/// What an expression is, as mathematics.
pub enum ExprModel {
    Empty,
    Null,
    Bool(bool),
    Int(int),
    Float(u64),
    Str(Seq<char>),
    Id(Seq<char>),
    Call { name: Seq<char>, args: Seq<ExprModel> },
    Await(Box<ExprModel>),
    Lambda(Box<FuncModel>),
}

impl AstExpr {
    /// What the expression is, as mathematics.
    pub open spec fn model(&self) -> ExprModel
        decreases self,
    {
        match self {
            AstExpr::Empty => ExprModel::Empty,
            AstExpr::Null => ExprModel::Null,
            AstExpr::Bool(b) => ExprModel::Bool(*b),
            AstExpr::Int(i) => ExprModel::Int(*i as int),
            AstExpr::Float(f) => ExprModel::Float(f.bits),
            AstExpr::Str(s) => ExprModel::Str(s@),
            AstExpr::Id(s) => ExprModel::Id(s@),
            AstExpr::Call { name, args } => ExprModel::Call {
                name: name@,
                args: Seq::new(
                    args.len() as nat,
                    |i: int|
                        if 0 <= i < args.len() {
                            args[i].model()
                        } else {
                            ExprModel::Empty
                        },
                ),
            },
            AstExpr::Await(e) => ExprModel::Await(Box::new((**e).model())),
            AstExpr::Lambda(f) => ExprModel::Lambda(Box::new((**f).model())),
        }
    }
}

/// The models of a list of expressions, in order.
pub open spec fn expr_models(exprs: Vec<AstExpr>) -> Seq<ExprModel> {
    Seq::new(exprs.len() as nat, |i: int| exprs[i].model())
}

impl View for AstExpr {
    type V = ExprModel;

    open spec fn view(&self) -> ExprModel {
        self.model()
    }
}

/// A statement.
#[derive(Debug)]
pub enum AstStmt {
    /// Evaluates the expression; its value is the frame's latest result.
    Expr(AstExpr),
    /// Binds `name` to the value of the expression.
    Assign { name: String, value: AstExpr },
    /// Ends the frame with the value of the expression.
    Return(AstExpr),
    /// Binds the function or task to its own name.
    Define(AstFunc),
}

/// What a statement is, as mathematics.
pub enum StmtModel {
    Expr(ExprModel),
    Assign { name: Seq<char>, value: ExprModel },
    Return(ExprModel),
    Define(FuncModel),
}

impl AstStmt {
    /// What the statement is, as mathematics.
    pub open spec fn model(&self) -> StmtModel
        decreases self,
    {
        match self {
            AstStmt::Expr(e) => StmtModel::Expr(e.model()),
            AstStmt::Assign { name, value } => StmtModel::Assign {
                name: name@,
                value: value.model(),
            },
            AstStmt::Return(e) => StmtModel::Return(e.model()),
            AstStmt::Define(f) => StmtModel::Define(f.model()),
        }
    }
}

impl View for AstStmt {
    type V = StmtModel;

    open spec fn view(&self) -> StmtModel {
        self.model()
    }
}

/// The models of a list of statements, in order.
pub open spec fn stmt_models(stmts: Vec<AstStmt>) -> Seq<StmtModel>
    decreases stmts,
{
    Seq::new(
        stmts.len() as nat,
        |i: int|
            if 0 <= i < stmts.len() {
                stmts[i].model()
            } else {
                StmtModel::Expr(ExprModel::Empty)
            },
    )
}

/// The texts of a list of names, in order.
pub open spec fn name_models(names: Vec<String>) -> Seq<Seq<char>> {
    Seq::new(names.len() as nat, |i: int| names[i]@)
}

/// A copy of the expression.
pub fn copy_expr(e: &AstExpr) -> (r: AstExpr)
    ensures
        r@ == e@,
    decreases e,
{
    match e {
        AstExpr::Empty => AstExpr::Empty,
        AstExpr::Null => AstExpr::Null,
        AstExpr::Bool(b) => AstExpr::Bool(*b),
        AstExpr::Int(i) => AstExpr::Int(*i),
        AstExpr::Float(f) => AstExpr::Float(*f),
        AstExpr::Str(s) => AstExpr::Str(s.clone()),
        AstExpr::Id(s) => AstExpr::Id(s.clone()),
        AstExpr::Call { name, args } => {
            let mut out: Vec<AstExpr> = Vec::new();
            let mut i: usize = 0;
            while i < args.len()
                invariant
                    i <= args.len(),
                    out.len() == i,
                    forall|j: int| 0 <= j < i ==> out[j]@ == args[j]@,
                    e matches AstExpr::Call { args: a, .. } && a == args,
                decreases args.len() - i,
            {
                out.push(copy_expr(&args[i]));
                i = i + 1;
            }
            let r = AstExpr::Call { name: name.clone(), args: out };
            proof {
                assert(r@->Call_args =~= e@->Call_args);
            }
            r
        },
        AstExpr::Await(inner) => AstExpr::Await(Box::new(copy_expr(&**inner))),
        AstExpr::Lambda(f) => AstExpr::Lambda(Box::new(copy_func(&**f))),
    }
}

/// A copy of the statement.
pub fn copy_stmt(s: &AstStmt) -> (r: AstStmt)
    ensures
        r@ == s@,
    decreases s,
{
    match s {
        AstStmt::Expr(e) => AstStmt::Expr(copy_expr(e)),
        AstStmt::Assign { name, value } => AstStmt::Assign {
            name: name.clone(),
            value: copy_expr(value),
        },
        AstStmt::Return(e) => AstStmt::Return(copy_expr(e)),
        AstStmt::Define(f) => AstStmt::Define(copy_func(f)),
    }
}

/// A copy of the statements, in order.
pub fn copy_stmts(stmts: &Vec<AstStmt>) -> (r: Vec<AstStmt>)
    ensures
        stmt_models(r) == stmt_models(*stmts),
        r.len() == stmts.len(),
    decreases stmts,
{
    let mut out: Vec<AstStmt> = Vec::new();
    let mut i: usize = 0;
    while i < stmts.len()
        invariant
            i <= stmts.len(),
            out.len() == i,
            forall|j: int| 0 <= j < i ==> out[j]@ == stmts[j]@,
        decreases stmts.len() - i,
    {
        out.push(copy_stmt(&stmts[i]));
        i = i + 1;
    }
    proof {
        assert(stmt_models(out) =~= stmt_models(*stmts));
    }
    out
}

/// A copy of the names, in order.
pub fn copy_names(names: &Vec<String>) -> (r: Vec<String>)
    ensures
        name_models(r) == name_models(*names),
        r.len() == names.len(),
{
    let mut out: Vec<String> = Vec::new();
    let mut i: usize = 0;
    while i < names.len()
        invariant
            i <= names.len(),
            out.len() == i,
            forall|j: int| 0 <= j < i ==> out[j]@ == names[j]@,
        decreases names.len() - i,
    {
        out.push(names[i].clone());
        i = i + 1;
    }
    proof {
        assert(name_models(out) =~= name_models(*names));
    }
    out
}

impl Clone for AstExpr {
    fn clone(&self) -> (r: Self)
        ensures
            r@ == self@,
    {
        copy_expr(self)
    }
}

impl Clone for AstStmt {
    fn clone(&self) -> (r: Self)
        ensures
            r@ == self@,
    {
        copy_stmt(self)
    }
}

} // verus!

//! Definitions of functions and tasks, and the annotations of a task.

use vstd::prelude::*;
use crate::ast::{
    copy_expr, copy_names, copy_stmts, name_models, stmt_models, AstExpr, AstStmt, ExprModel,
    StmtModel,
};
use crate::types::{AstFuncType, AstType};

verus! {

/// A function of the host, by the slot under which the runtime keeps it.
#[derive(Clone, Copy, Debug)]
pub struct NativeFunc {
    pub slot: usize,
    pub arg_count: usize,
}

/// A function of the script.
#[derive(Debug)]
pub struct FasFunc {
    pub name: String,
    pub arg_names: Vec<String>,
    pub body_stmts: Vec<AstStmt>,
}

/// A task of the script: a function that runs on its own, under the
/// policies that its annotations declare.
#[derive(Debug)]
pub struct FasTask {
    pub annotations: Vec<AstAnnoPart>,
    pub name: String,
    pub arg_names: Vec<String>,
    pub body_stmts: Vec<AstStmt>,
}

/// One annotation of a task: its keyword and its expression.
#[derive(Debug)]
pub struct AstAnnoPart {
    pub anno_type: String,
    pub anno_expr: AstExpr,
}

/// Anything that can be called.
#[derive(Debug)]
pub enum AstFunc {
    NativeFunc(NativeFunc),
    FasFunc(FasFunc),
    FasTask(FasTask),
}

/// A function as an expression, which is how a value holds one.
#[derive(Debug)]
pub struct AstFuncExpr {
    pub func: AstFunc,
}

pub struct FasFuncModel {
    pub name: Seq<char>,
    pub arg_names: Seq<Seq<char>>,
    pub body: Seq<StmtModel>,
}

pub struct AnnoModel {
    pub kind: Seq<char>,
    pub expr: ExprModel,
}

pub struct FasTaskModel {
    pub annotations: Seq<AnnoModel>,
    pub name: Seq<char>,
    pub arg_names: Seq<Seq<char>>,
    pub body: Seq<StmtModel>,
}

/// What a callable is, as mathematics.
pub enum FuncModel {
    Native { slot: nat, arg_count: nat },
    Func(FasFuncModel),
    Task(FasTaskModel),
}

impl AstAnnoPart {
    /// What the annotation is, as mathematics.
    pub open spec fn model(&self) -> AnnoModel
        decreases self,
    {
        AnnoModel { kind: self.anno_type@, expr: self.anno_expr.model() }
    }
}

impl View for AstAnnoPart {
    type V = AnnoModel;

    open spec fn view(&self) -> AnnoModel {
        self.model()
    }
}

/// The models of a list of annotations, in order.
pub open spec fn anno_models(annos: Vec<AstAnnoPart>) -> Seq<AnnoModel>
    decreases annos,
{
    Seq::new(
        annos.len() as nat,
        |i: int|
            if 0 <= i < annos.len() {
                annos[i].model()
            } else {
                AnnoModel { kind: Seq::empty(), expr: ExprModel::Empty }
            },
    )
}

impl FasFunc {
    /// What the function is, as mathematics.
    pub open spec fn model(&self) -> FasFuncModel
        decreases self,
    {
        FasFuncModel {
            name: self.name@,
            arg_names: name_models(self.arg_names),
            body: stmt_models(self.body_stmts),
        }
    }
}

impl FasTask {
    /// What the task is, as mathematics.
    pub open spec fn model(&self) -> FasTaskModel
        decreases self,
    {
        FasTaskModel {
            annotations: anno_models(self.annotations),
            name: self.name@,
            arg_names: name_models(self.arg_names),
            body: stmt_models(self.body_stmts),
        }
    }
}

impl AstFunc {
    /// What the callable is, as mathematics.
    pub open spec fn model(&self) -> FuncModel
        decreases self,
    {
        match self {
            AstFunc::NativeFunc(n) => FuncModel::Native {
                slot: n.slot as nat,
                arg_count: n.arg_count as nat,
            },
            AstFunc::FasFunc(f) => FuncModel::Func(f.model()),
            AstFunc::FasTask(t) => FuncModel::Task(t.model()),
        }
    }
}

impl View for FasFunc {
    type V = FasFuncModel;

    open spec fn view(&self) -> FasFuncModel {
        self.model()
    }
}

impl View for FasTask {
    type V = FasTaskModel;

    open spec fn view(&self) -> FasTaskModel {
        self.model()
    }
}

impl View for AstFunc {
    type V = FuncModel;

    open spec fn view(&self) -> FuncModel {
        self.model()
    }
}

impl View for AstFuncExpr {
    type V = FuncModel;

    open spec fn view(&self) -> FuncModel {
        self.func@
    }
}

impl FuncModel {
    /// The name that the definition carries; a host function carries none.
    pub open spec fn name(self) -> Seq<char> {
        match self {
            FuncModel::Native { .. } => Seq::empty(),
            FuncModel::Func(f) => f.name,
            FuncModel::Task(t) => t.name,
        }
    }

    /// The number of parameters.
    pub open spec fn arity(self) -> nat {
        match self {
            FuncModel::Native { arg_count, .. } => arg_count,
            FuncModel::Func(f) => f.arg_names.len(),
            FuncModel::Task(t) => t.arg_names.len(),
        }
    }
}

/// A copy of the annotation.
pub fn copy_anno(a: &AstAnnoPart) -> (r: AstAnnoPart)
    ensures
        r@ == a@,
    decreases a,
{
    AstAnnoPart { anno_type: a.anno_type.clone(), anno_expr: copy_expr(&a.anno_expr) }
}

/// A copy of the annotations, in order.
pub fn copy_annos(annos: &Vec<AstAnnoPart>) -> (r: Vec<AstAnnoPart>)
    ensures
        anno_models(r) == anno_models(*annos),
        r.len() == annos.len(),
    decreases annos,
{
    let mut out: Vec<AstAnnoPart> = Vec::new();
    let mut i: usize = 0;
    while i < annos.len()
        invariant
            i <= annos.len(),
            out.len() == i,
            forall|j: int| 0 <= j < i ==> out[j]@ == annos[j]@,
        decreases annos.len() - i,
    {
        out.push(copy_anno(&annos[i]));
        i = i + 1;
    }
    proof {
        assert(anno_models(out) =~= anno_models(*annos));
    }
    out
}

/// A copy of the callable.
pub fn copy_func(f: &AstFunc) -> (r: AstFunc)
    ensures
        r@ == f@,
    decreases f,
{
    match f {
        AstFunc::NativeFunc(n) => AstFunc::NativeFunc(*n),
        AstFunc::FasFunc(func) => AstFunc::FasFunc(
            FasFunc {
                name: func.name.clone(),
                arg_names: copy_names(&func.arg_names),
                body_stmts: copy_stmts(&func.body_stmts),
            },
        ),
        AstFunc::FasTask(task) => AstFunc::FasTask(
            FasTask {
                annotations: copy_annos(&task.annotations),
                name: task.name.clone(),
                arg_names: copy_names(&task.arg_names),
                body_stmts: copy_stmts(&task.body_stmts),
            },
        ),
    }
}

impl Clone for AstAnnoPart {
    fn clone(&self) -> (r: Self)
        ensures
            r@ == self@,
    {
        copy_anno(self)
    }
}

impl Clone for FasFunc {
    fn clone(&self) -> (r: Self)
        ensures
            r@ == self@,
    {
        FasFunc {
            name: self.name.clone(),
            arg_names: copy_names(&self.arg_names),
            body_stmts: copy_stmts(&self.body_stmts),
        }
    }
}

impl Clone for FasTask {
    fn clone(&self) -> (r: Self)
        ensures
            r@ == self@,
    {
        FasTask {
            annotations: copy_annos(&self.annotations),
            name: self.name.clone(),
            arg_names: copy_names(&self.arg_names),
            body_stmts: copy_stmts(&self.body_stmts),
        }
    }
}

impl Clone for AstFunc {
    fn clone(&self) -> (r: Self)
        ensures
            r@ == self@,
    {
        copy_func(self)
    }
}

impl Clone for AstFuncExpr {
    fn clone(&self) -> (r: Self)
        ensures
            r@ == self@,
    {
        AstFuncExpr { func: copy_func(&self.func) }
    }
}

impl AstFunc {
    /// The name that the definition carries; a host function carries none.
    pub fn get_name(&self) -> (name: String)
        ensures
            name@ == self@.name(),
    {
        match self {
            AstFunc::NativeFunc(_) => String::new(),
            AstFunc::FasFunc(func) => func.name.clone(),
            AstFunc::FasTask(task) => task.name.clone(),
        }
    }

    /// The number of parameters.
    pub fn arity(&self) -> (n: usize)
        ensures
            n == self@.arity(),
    {
        match self {
            AstFunc::NativeFunc(native) => native.arg_count,
            AstFunc::FasFunc(func) => func.arg_names.len(),
            AstFunc::FasTask(task) => task.arg_names.len(),
        }
    }

    /// The type of a callable with as many parameters as this one.
    pub fn get_type(&self) -> (t: AstType)
        ensures
            t == AstFuncType::of(self@.arity() as usize),
    {
        AstFuncType::new(
            match self {
                AstFunc::NativeFunc(native) => native.arg_count,
                AstFunc::FasFunc(func) => func.arg_names.len(),
                AstFunc::FasTask(task) => task.arg_names.len(),
            },
        )
    }
}

} // verus!

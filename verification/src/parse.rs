//! From the parse tree to the syntax: what each rule's node stands for.
//!
//! Every function here refuses a tree that its rule does not admit, with the
//! error of the first node at fault, and says what it builds otherwise.

use vstd::prelude::*;
use vstd::string::*;
use crate::ast::{expr_models, name_models, stmt_models, AstExpr, AstStmt, ExprModel, StmtModel};
use crate::float::FasFloat;
use crate::func::{
    anno_models, AnnoModel, AstAnnoPart, AstFunc, FasFunc, FasFuncModel, FasTask, FasTaskModel,
    FuncModel,
};
use crate::syntax::{i64_of, parse_i64, parse_u64, u64_of, ParseError, ParseNode, Rule};
use crate::text::same_text;

verus! {

/// What kind of definition a node is read as.
#[derive(Clone, Copy, Debug, PartialEq, Eq, Structural)]
pub enum DefKind {
    Func,
    Task,
    Lambda,
}

/// The parts of a definition, as mathematics.
pub struct PartsModel {
    pub annotations: Seq<AnnoModel>,
    pub name: Seq<char>,
    pub arg_names: Seq<Seq<char>>,
    pub body: Seq<StmtModel>,
}

/// The parts of a definition.
pub struct DefParts {
    pub annotations: Vec<AstAnnoPart>,
    pub name: String,
    pub arg_names: Vec<String>,
    pub body_stmts: Vec<AstStmt>,
}

impl View for DefParts {
    type V = PartsModel;

    open spec fn view(&self) -> PartsModel {
        PartsModel {
            annotations: anno_models(self.annotations),
            name: self.name@,
            arg_names: name_models(self.arg_names),
            body: stmt_models(self.body_stmts),
        }
    }
}

/// An expression taken apart: the statements before it, the expression,
/// and the statements after it.
pub struct MiddleModel {
    pub before: Seq<StmtModel>,
    pub expr: Option<ExprModel>,
    pub after: Seq<StmtModel>,
}

/// The keyword is one of the five that an annotation may have.
pub open spec fn is_anno_kind(s: Seq<char>) -> bool {
    s == "pause"@ || s == "resume"@ || s == "degradation"@ || s == "rollback"@ || s == "retry"@
}

/// The rule is one of a statement.
pub open spec fn is_stmt_rule(rule: Rule) -> bool {
    rule is ExprStmt || rule is AssignStmt || rule is ReturnStmt || rule is FuncStmt
        || rule is TaskStmt
}

/// The expression that the node stands for.
pub open spec fn expr_of(node: ParseNode) -> Result<ExprModel, ParseError>
    decreases node, 2nat,
{
    match node.rule {
        Rule::NullLit => Ok(ExprModel::Null),
        Rule::TrueLit => Ok(ExprModel::Bool(true)),
        Rule::FalseLit => Ok(ExprModel::Bool(false)),
        Rule::IntLit => match i64_of(node.text@) {
            Some(i) => Ok(ExprModel::Int(i as int)),
            None => Err(ParseError::BadLiteral),
        },
        Rule::FloatLit => match u64_of(node.text@, 0) {
            Some(bits) => Ok(ExprModel::Float(bits)),
            None => Err(ParseError::BadLiteral),
        },
        Rule::StrLit => Ok(ExprModel::Str(node.text@)),
        Rule::Id => Ok(ExprModel::Id(node.text@)),
        Rule::CallExpr => if node.children.len() == 0 || !(node.children[0].rule is Id) {
            Err(ParseError::UnexpectedRule)
        } else {
            match exprs_upto(node.children, node.children.len() as nat) {
                Ok(args) => Ok(ExprModel::Call { name: node.children[0].text@, args }),
                Err(e) => Err(e),
            }
        },
        Rule::AwaitExpr => if node.children.len() != 1 {
            Err(ParseError::UnexpectedRule)
        } else {
            match expr_of(node.children[0]) {
                Ok(e) => Ok(ExprModel::Await(Box::new(e))),
                Err(e) => Err(e),
            }
        },
        Rule::LambdaExpr => match parts_upto(
            DefKind::Lambda,
            node.children,
            node.children.len() as nat,
        ) {
            Ok(p) => Ok(ExprModel::Lambda(Box::new(FuncModel::Func(func_from(p))))),
            Err(e) => Err(e),
        },
        _ => Err(ParseError::UnexpectedRule),
    }
}

/// The expressions that the children after the first stand for, up to the
/// child of index `n`, that one left out.
pub open spec fn exprs_upto(children: Vec<ParseNode>, n: nat) -> Result<Seq<ExprModel>, ParseError>
    decreases children, n,
{
    if n <= 1 || n > children.len() {
        Ok(Seq::empty())
    } else {
        match exprs_upto(children, (n - 1) as nat) {
            Err(e) => Err(e),
            Ok(done) => match expr_of(children[n - 1]) {
                Err(e) => Err(e),
                Ok(x) => Ok(done.push(x)),
            },
        }
    }
}

/// The statement that the node stands for.
pub open spec fn stmt_of(node: ParseNode) -> Result<StmtModel, ParseError>
    decreases node, 2nat,
{
    match node.rule {
        Rule::ExprStmt => if node.children.len() != 1 {
            Err(ParseError::UnexpectedRule)
        } else {
            match expr_of(node.children[0]) {
                Ok(e) => Ok(StmtModel::Expr(e)),
                Err(e) => Err(e),
            }
        },
        Rule::AssignStmt => if node.children.len() != 2 || !(node.children[0].rule is Id) {
            Err(ParseError::UnexpectedRule)
        } else {
            match expr_of(node.children[1]) {
                Ok(e) => Ok(StmtModel::Assign { name: node.children[0].text@, value: e }),
                Err(e) => Err(e),
            }
        },
        Rule::ReturnStmt => if node.children.len() == 0 {
            Ok(StmtModel::Return(ExprModel::Empty))
        } else if node.children.len() == 1 {
            match expr_of(node.children[0]) {
                Ok(e) => Ok(StmtModel::Return(e)),
                Err(e) => Err(e),
            }
        } else {
            Err(ParseError::UnexpectedRule)
        },
        Rule::FuncStmt => match func_of(node) {
            Ok(f) => Ok(StmtModel::Define(f)),
            Err(e) => Err(e),
        },
        Rule::TaskStmt => match func_of(node) {
            Ok(f) => Ok(StmtModel::Define(f)),
            Err(e) => Err(e),
        },
        _ => Err(ParseError::UnexpectedRule),
    }
}

/// The statements that the first `n` children stand for.
pub open spec fn stmts_upto(children: Vec<ParseNode>, n: nat) -> Result<Seq<StmtModel>, ParseError>
    decreases children, n,
{
    if n == 0 || n > children.len() {
        Ok(Seq::empty())
    } else {
        match stmts_upto(children, (n - 1) as nat) {
            Err(e) => Err(e),
            Ok(done) => match stmt_of(children[n - 1]) {
                Err(e) => Err(e),
                Ok(s) => Ok(done.push(s)),
            },
        }
    }
}

/// The names that the first `n` children are, which must be names all.
pub open spec fn names_upto(children: Vec<ParseNode>, n: nat) -> Result<
    Seq<Seq<char>>,
    ParseError,
>
    decreases n,
{
    if n == 0 || n > children.len() {
        Ok(Seq::empty())
    } else {
        match names_upto(children, (n - 1) as nat) {
            Err(e) => Err(e),
            Ok(done) => if children[n - 1].rule is Id {
                Ok(done.push(children[n - 1].text@))
            } else {
                Err(ParseError::UnexpectedRule)
            },
        }
    }
}

/// What the first `n` children of a taken-apart expression stand for: a
/// statement goes before the expression until the expression has come, and
/// after it from then on; a second expression is refused.
pub open spec fn middle_upto(children: Vec<ParseNode>, n: nat) -> Result<MiddleModel, ParseError>
    decreases children, n,
{
    if n == 0 || n > children.len() {
        Ok(MiddleModel { before: Seq::empty(), expr: None, after: Seq::empty() })
    } else {
        match middle_upto(children, (n - 1) as nat) {
            Err(e) => Err(e),
            Ok(m) => if is_stmt_rule(children[n - 1].rule) {
                match stmt_of(children[n - 1]) {
                    Err(e) => Err(e),
                    Ok(s) => if m.expr is None {
                        Ok(MiddleModel { before: m.before.push(s), expr: m.expr, after: m.after })
                    } else {
                        Ok(MiddleModel { before: m.before, expr: m.expr, after: m.after.push(s) })
                    },
                }
            } else if m.expr is Some {
                Err(ParseError::UnexpectedRule)
            } else {
                match expr_of(children[n - 1]) {
                    Err(e) => Err(e),
                    Ok(x) => Ok(MiddleModel { before: m.before, expr: Some(x), after: m.after }),
                }
            },
        }
    }
}

/// The annotation that the first `n` children of its node make up: a name
/// sets the keyword, which must be one of the five, and a taken-apart
/// expression sets the expression, which must come without statements.
pub open spec fn anno_upto(children: Vec<ParseNode>, n: nat) -> Result<AnnoModel, ParseError>
    decreases children, n,
{
    if n == 0 || n > children.len() {
        Ok(AnnoModel { kind: Seq::empty(), expr: ExprModel::Empty })
    } else {
        match anno_upto(children, (n - 1) as nat) {
            Err(e) => Err(e),
            Ok(a) => match children[n - 1].rule {
                Rule::Id => if is_anno_kind(children[n - 1].text@) {
                    Ok(AnnoModel { kind: children[n - 1].text@, expr: a.expr })
                } else {
                    Err(ParseError::UnknownAnnotation)
                },
                Rule::MiddleExpr => match middle_upto(
                    children[n - 1].children,
                    children[n - 1].children.len() as nat,
                ) {
                    Err(e) => Err(e),
                    Ok(m) => if m.before.len() + m.after.len() > 0 {
                        Err(ParseError::AnnotationNotExpression)
                    } else {
                        Ok(
                            AnnoModel {
                                kind: a.kind,
                                expr: match m.expr {
                                    Some(x) => x,
                                    None => ExprModel::Empty,
                                },
                            },
                        )
                    },
                },
                _ => Err(ParseError::UnexpectedRule),
            },
        }
    }
}

/// The parts that the first `n` children of a definition make up. A name
/// is the definition's name, and for a function without a name one more
/// parameter; a parameter list sets the parameters; a body sets the body;
/// an annotation, which only a task may have, joins the annotations.
pub open spec fn parts_upto(kind: DefKind, children: Vec<ParseNode>, n: nat) -> Result<
    PartsModel,
    ParseError,
>
    decreases children, n,
{
    if n == 0 || n > children.len() {
        Ok(
            PartsModel {
                annotations: Seq::empty(),
                name: Seq::empty(),
                arg_names: Seq::empty(),
                body: Seq::empty(),
            },
        )
    } else {
        match parts_upto(kind, children, (n - 1) as nat) {
            Err(e) => Err(e),
            Ok(p) => match children[n - 1].rule {
                Rule::Id => if kind is Lambda {
                    Ok(
                        PartsModel {
                            annotations: p.annotations,
                            name: p.name,
                            arg_names: p.arg_names.push(children[n - 1].text@),
                            body: p.body,
                        },
                    )
                } else {
                    Ok(
                        PartsModel {
                            annotations: p.annotations,
                            name: children[n - 1].text@,
                            arg_names: p.arg_names,
                            body: p.body,
                        },
                    )
                },
                Rule::Args => match names_upto(
                    children[n - 1].children,
                    children[n - 1].children.len() as nat,
                ) {
                    Err(e) => Err(e),
                    Ok(names) => Ok(
                        PartsModel {
                            annotations: p.annotations,
                            name: p.name,
                            arg_names: names,
                            body: p.body,
                        },
                    ),
                },
                Rule::FuncBody => match stmts_upto(
                    children[n - 1].children,
                    children[n - 1].children.len() as nat,
                ) {
                    Err(e) => Err(e),
                    Ok(body) => Ok(
                        PartsModel {
                            annotations: p.annotations,
                            name: p.name,
                            arg_names: p.arg_names,
                            body,
                        },
                    ),
                },
                Rule::AnnoPart => if kind is Task {
                    match anno_upto(
                        children[n - 1].children,
                        children[n - 1].children.len() as nat,
                    ) {
                        Err(e) => Err(e),
                        Ok(a) => Ok(
                            PartsModel {
                                annotations: p.annotations.push(a),
                                name: p.name,
                                arg_names: p.arg_names,
                                body: p.body,
                            },
                        ),
                    }
                } else {
                    Err(ParseError::UnexpectedRule)
                },
                _ => Err(ParseError::UnexpectedRule),
            },
        }
    }
}

/// The function that the parts make up.
pub open spec fn func_from(p: PartsModel) -> FasFuncModel {
    FasFuncModel { name: p.name, arg_names: p.arg_names, body: p.body }
}

/// The task that the parts make up.
pub open spec fn task_from(p: PartsModel) -> FasTaskModel {
    FasTaskModel { annotations: p.annotations, name: p.name, arg_names: p.arg_names, body: p.body }
}

/// The function or task that the node defines.
pub open spec fn func_of(node: ParseNode) -> Result<FuncModel, ParseError>
    decreases node, 1nat,
{
    match node.rule {
        Rule::FuncStmt => match parts_upto(
            DefKind::Func,
            node.children,
            node.children.len() as nat,
        ) {
            Ok(p) => Ok(FuncModel::Func(func_from(p))),
            Err(e) => Err(e),
        },
        Rule::TaskStmt => match parts_upto(
            DefKind::Task,
            node.children,
            node.children.len() as nat,
        ) {
            Ok(p) => Ok(FuncModel::Task(task_from(p))),
            Err(e) => Err(e),
        },
        _ => Err(ParseError::UnexpectedRule),
    }
}

/// Whether the keyword is one of the five that an annotation may have.
pub fn anno_kind_known(kind: &str) -> (known: bool)
    ensures
        known == is_anno_kind(kind@),
{
    same_text(kind, "pause") || same_text(kind, "resume") || same_text(kind, "degradation")
        || same_text(kind, "rollback") || same_text(kind, "retry")
}

fn stmt_rule(rule: Rule) -> (b: bool)
    ensures
        b == is_stmt_rule(rule),
{
    match rule {
        Rule::ExprStmt => true,
        Rule::AssignStmt => true,
        Rule::ReturnStmt => true,
        Rule::FuncStmt => true,
        Rule::TaskStmt => true,
        _ => false,
    }
}

fn is_id(rule: Rule) -> (b: bool)
    ensures
        b == (rule is Id),
{
    match rule {
        Rule::Id => true,
        _ => false,
    }
}

/// Reads an expression.
pub fn parse_expr(node: &ParseNode) -> (r: Result<AstExpr, ParseError>)
    ensures
        match expr_of(*node) {
            Ok(m) => r is Ok && r->Ok_0@ == m,
            Err(e) => r is Err && r->Err_0 == e,
        },
    decreases node, 2nat,
{
    match node.rule {
        Rule::NullLit => Ok(AstExpr::Null),
        Rule::TrueLit => Ok(AstExpr::Bool(true)),
        Rule::FalseLit => Ok(AstExpr::Bool(false)),
        Rule::IntLit => match parse_i64(node.text.as_str()) {
            Some(i) => Ok(AstExpr::Int(i)),
            None => Err(ParseError::BadLiteral),
        },
        Rule::FloatLit => match parse_u64(node.text.as_str(), 0) {
            Some(bits) => Ok(AstExpr::Float(FasFloat { bits })),
            None => Err(ParseError::BadLiteral),
        },
        Rule::StrLit => Ok(AstExpr::Str(node.text.clone())),
        Rule::Id => Ok(AstExpr::Id(node.text.clone())),
        Rule::CallExpr => {
            if node.children.len() == 0 || !is_id(node.children[0].rule) {
                return Err(ParseError::UnexpectedRule);
            }
            let mut args: Vec<AstExpr> = Vec::new();
            let mut i: usize = 1;
            proof {
                assert(expr_models(args) =~= Seq::<ExprModel>::empty());
            }
            while i < node.children.len()
                invariant
                    1 <= i <= node.children.len(),
                    node.rule is CallExpr,
                    node.children[0].rule is Id,
                    exprs_upto(node.children, i as nat) == Ok::<Seq<ExprModel>, ParseError>(
                        expr_models(args),
                    ),
                decreases node.children.len() - i,
            {
                let ghost before = expr_models(args);
                match parse_expr(&node.children[i]) {
                    Ok(x) => {
                        args.push(x);
                        proof {
                            assert(expr_models(args) =~= before.push(x@));
                        }
                    },
                    Err(e) => {
                        proof {
                            lemma_exprs_error(node.children, (i + 1) as nat, node.children.len() as nat);
                        }
                        return Err(e);
                    },
                }
                i = i + 1;
            }
            let r = AstExpr::Call { name: node.children[0].text.clone(), args };
            proof {
                assert(r@->Call_args =~= expr_models(args));
                assert(r@ == ExprModel::Call {
                    name: node.children[0].text@,
                    args: expr_models(args),
                });
            }
            Ok(r)
        },
        Rule::AwaitExpr => {
            if node.children.len() != 1 {
                return Err(ParseError::UnexpectedRule);
            }
            match parse_expr(&node.children[0]) {
                Ok(e) => {
                    let r = AstExpr::Await(Box::new(e));
                    proof {
                        assert(r@ == ExprModel::Await(Box::new(e@)));
                    }
                    Ok(r)
                },
                Err(e) => Err(e),
            }
        },
        Rule::LambdaExpr => match parse_parts(DefKind::Lambda, node) {
            Ok(p) => {
                let ghost parts = p@;
                let r = AstExpr::Lambda(
                    Box::new(
                        AstFunc::FasFunc(
                            FasFunc { name: p.name, arg_names: p.arg_names, body_stmts: p.body_stmts },
                        ),
                    ),
                );
                proof {
                    reveal_with_fuel(AstExpr::model, 3);
                    reveal_with_fuel(AstFunc::model, 3);
                    reveal_with_fuel(FasFunc::model, 3);
                    assert(r@ == ExprModel::Lambda(Box::new(FuncModel::Func(func_from(parts)))));
                }
                Ok(r)
            },
            Err(e) => Err(e),
        },
        _ => Err(ParseError::UnexpectedRule),
    }
}

/// An error among the first children is the error of them all.
proof fn lemma_exprs_error(children: Vec<ParseNode>, n: nat, m: nat)
    requires
        n <= m <= children.len(),
        exprs_upto(children, n) is Err,
    ensures
        exprs_upto(children, m) == exprs_upto(children, n),
    decreases m,
{
    if n < m {
        lemma_exprs_error(children, n, (m - 1) as nat);
    }
}

proof fn lemma_stmts_error(children: Vec<ParseNode>, n: nat, m: nat)
    requires
        n <= m <= children.len(),
        stmts_upto(children, n) is Err,
    ensures
        stmts_upto(children, m) == stmts_upto(children, n),
    decreases m,
{
    if n < m {
        lemma_stmts_error(children, n, (m - 1) as nat);
    }
}

proof fn lemma_names_error(children: Vec<ParseNode>, n: nat, m: nat)
    requires
        n <= m <= children.len(),
        names_upto(children, n) is Err,
    ensures
        names_upto(children, m) == names_upto(children, n),
    decreases m,
{
    if n < m {
        lemma_names_error(children, n, (m - 1) as nat);
    }
}

proof fn lemma_middle_error(children: Vec<ParseNode>, n: nat, m: nat)
    requires
        n <= m <= children.len(),
        middle_upto(children, n) is Err,
    ensures
        middle_upto(children, m) == middle_upto(children, n),
    decreases m,
{
    if n < m {
        lemma_middle_error(children, n, (m - 1) as nat);
    }
}

proof fn lemma_anno_error(children: Vec<ParseNode>, n: nat, m: nat)
    requires
        n <= m <= children.len(),
        anno_upto(children, n) is Err,
    ensures
        anno_upto(children, m) == anno_upto(children, n),
    decreases m,
{
    if n < m {
        lemma_anno_error(children, n, (m - 1) as nat);
    }
}

proof fn lemma_parts_error(kind: DefKind, children: Vec<ParseNode>, n: nat, m: nat)
    requires
        n <= m <= children.len(),
        parts_upto(kind, children, n) is Err,
    ensures
        parts_upto(kind, children, m) == parts_upto(kind, children, n),
    decreases m,
{
    if n < m {
        lemma_parts_error(kind, children, n, (m - 1) as nat);
    }
}

/// Reads a statement.
pub fn parse_stmt(node: &ParseNode) -> (r: Result<AstStmt, ParseError>)
    ensures
        match stmt_of(*node) {
            Ok(m) => r is Ok && r->Ok_0@ == m,
            Err(e) => r is Err && r->Err_0 == e,
        },
    decreases node, 2nat,
{
    match node.rule {
        Rule::ExprStmt => {
            if node.children.len() != 1 {
                return Err(ParseError::UnexpectedRule);
            }
            match parse_expr(&node.children[0]) {
                Ok(e) => Ok(AstStmt::Expr(e)),
                Err(e) => Err(e),
            }
        },
        Rule::AssignStmt => {
            if node.children.len() != 2 || !is_id(node.children[0].rule) {
                return Err(ParseError::UnexpectedRule);
            }
            match parse_expr(&node.children[1]) {
                Ok(e) => Ok(AstStmt::Assign { name: node.children[0].text.clone(), value: e }),
                Err(e) => Err(e),
            }
        },
        Rule::ReturnStmt => {
            if node.children.len() == 0 {
                Ok(AstStmt::Return(AstExpr::Empty))
            } else if node.children.len() == 1 {
                match parse_expr(&node.children[0]) {
                    Ok(e) => Ok(AstStmt::Return(e)),
                    Err(e) => Err(e),
                }
            } else {
                Err(ParseError::UnexpectedRule)
            }
        },
        Rule::FuncStmt => match parse_func(node) {
            Ok(f) => Ok(AstStmt::Define(f)),
            Err(e) => Err(e),
        },
        Rule::TaskStmt => match parse_func(node) {
            Ok(f) => Ok(AstStmt::Define(f)),
            Err(e) => Err(e),
        },
        _ => Err(ParseError::UnexpectedRule),
    }
}

/// Reads the children of the node as statements.
pub fn parse_stmts(node: &ParseNode) -> (r: Result<Vec<AstStmt>, ParseError>)
    ensures
        match stmts_upto(node.children, node.children.len() as nat) {
            Ok(m) => r is Ok && stmt_models(r->Ok_0) == m,
            Err(e) => r is Err && r->Err_0 == e,
        },
    decreases node, 0nat,
{
    let mut out: Vec<AstStmt> = Vec::new();
    let mut i: usize = 0;
    proof {
        assert(stmt_models(out) =~= Seq::<StmtModel>::empty());
    }
    while i < node.children.len()
        invariant
            i <= node.children.len(),
            stmts_upto(node.children, i as nat) == Ok::<Seq<StmtModel>, ParseError>(
                stmt_models(out),
            ),
        decreases node.children.len() - i,
    {
        let ghost before = stmt_models(out);
        match parse_stmt(&node.children[i]) {
            Ok(s) => {
                out.push(s);
                proof {
                    assert(stmt_models(out) =~= before.push(s@));
                }
            },
            Err(e) => {
                proof {
                    lemma_stmts_error(node.children, (i + 1) as nat, node.children.len() as nat);
                }
                return Err(e);
            },
        }
        i = i + 1;
    }
    Ok(out)
}

/// Reads the children of the node as names.
pub fn parse_names(node: &ParseNode) -> (r: Result<Vec<String>, ParseError>)
    ensures
        match names_upto(node.children, node.children.len() as nat) {
            Ok(m) => r is Ok && name_models(r->Ok_0) == m,
            Err(e) => r is Err && r->Err_0 == e,
        },
{
    let mut out: Vec<String> = Vec::new();
    let mut i: usize = 0;
    proof {
        assert(name_models(out) =~= Seq::<Seq<char>>::empty());
    }
    while i < node.children.len()
        invariant
            i <= node.children.len(),
            names_upto(node.children, i as nat) == Ok::<Seq<Seq<char>>, ParseError>(
                name_models(out),
            ),
        decreases node.children.len() - i,
    {
        let ghost before = name_models(out);
        if !is_id(node.children[i].rule) {
            proof {
                lemma_names_error(node.children, (i + 1) as nat, node.children.len() as nat);
            }
            return Err(ParseError::UnexpectedRule);
        }
        out.push(node.children[i].text.clone());
        proof {
            assert(name_models(out) =~= before.push(node.children[i as int].text@));
        }
        i = i + 1;
    }
    Ok(out)
}

/// Reads an expression that was taken apart: the statements before it,
/// the expression, and the statements after it.
pub fn parse_middle_expr(node: &ParseNode) -> (r: Result<
    (Vec<AstStmt>, AstExpr, Vec<AstStmt>),
    ParseError,
>)
    ensures
        match middle_upto(node.children, node.children.len() as nat) {
            Ok(m) => r is Ok && stmt_models(r->Ok_0.0) == m.before && r->Ok_0.1@ == (match m.expr {
                Some(x) => x,
                None => ExprModel::Empty,
            }) && stmt_models(r->Ok_0.2) == m.after,
            Err(e) => r is Err && r->Err_0 == e,
        },
    decreases node, 0nat,
{
    let mut before: Vec<AstStmt> = Vec::new();
    let mut expr: Option<AstExpr> = None;
    let mut after: Vec<AstStmt> = Vec::new();
    let mut i: usize = 0;
    proof {
        assert(stmt_models(before) =~= Seq::<StmtModel>::empty());
        assert(stmt_models(after) =~= Seq::<StmtModel>::empty());
    }
    while i < node.children.len()
        invariant
            i <= node.children.len(),
            middle_upto(node.children, i as nat) == Ok::<MiddleModel, ParseError>(
                MiddleModel {
                    before: stmt_models(before),
                    expr: match expr {
                        Some(x) => Some(x@),
                        None => None,
                    },
                    after: stmt_models(after),
                },
            ),
        decreases node.children.len() - i,
    {
        let ghost b0 = stmt_models(before);
        let ghost a0 = stmt_models(after);
        let child = &node.children[i];
        if stmt_rule(child.rule) {
            match parse_stmt(child) {
                Ok(s) => {
                    if expr.is_none() {
                        before.push(s);
                        proof {
                            assert(stmt_models(before) =~= b0.push(s@));
                        }
                    } else {
                        after.push(s);
                        proof {
                            assert(stmt_models(after) =~= a0.push(s@));
                        }
                    }
                },
                Err(e) => {
                    proof {
                        lemma_middle_error(node.children, (i + 1) as nat, node.children.len() as nat);
                    }
                    return Err(e);
                },
            }
        } else if expr.is_some() {
            proof {
                lemma_middle_error(node.children, (i + 1) as nat, node.children.len() as nat);
            }
            return Err(ParseError::UnexpectedRule);
        } else {
            match parse_expr(child) {
                Ok(x) => {
                    expr = Some(x);
                },
                Err(e) => {
                    proof {
                        lemma_middle_error(node.children, (i + 1) as nat, node.children.len() as nat);
                    }
                    return Err(e);
                },
            }
        }
        i = i + 1;
    }
    let e = match expr {
        Some(x) => x,
        None => AstExpr::Empty,
    };
    Ok((before, e, after))
}

/// Reads an annotation.
pub fn parse_anno(node: &ParseNode) -> (r: Result<AstAnnoPart, ParseError>)
    ensures
        match anno_upto(node.children, node.children.len() as nat) {
            Ok(m) => r is Ok && r->Ok_0@ == m,
            Err(e) => r is Err && r->Err_0 == e,
        },
    decreases node, 0nat,
{
    let mut anno_type = String::new();
    let mut anno_expr = AstExpr::Empty;
    let mut i: usize = 0;
    while i < node.children.len()
        invariant
            i <= node.children.len(),
            anno_upto(node.children, i as nat) == Ok::<AnnoModel, ParseError>(
                AnnoModel { kind: anno_type@, expr: anno_expr@ },
            ),
        decreases node.children.len() - i,
    {
        let child = &node.children[i];
        match child.rule {
            Rule::Id => {
                if !anno_kind_known(child.text.as_str()) {
                    proof {
                        lemma_anno_error(node.children, (i + 1) as nat, node.children.len() as nat);
                    }
                    return Err(ParseError::UnknownAnnotation);
                }
                anno_type = child.text.clone();
            },
            Rule::MiddleExpr => {
                match parse_middle_expr(child) {
                    Ok(middle) => {
                        if middle.0.len() > 0 || middle.2.len() > 0 {
                            proof {
                                lemma_anno_error(
                                    node.children,
                                    (i + 1) as nat,
                                    node.children.len() as nat,
                                );
                            }
                            return Err(ParseError::AnnotationNotExpression);
                        }
                        anno_expr = middle.1;
                    },
                    Err(e) => {
                        proof {
                            lemma_anno_error(
                                node.children,
                                (i + 1) as nat,
                                node.children.len() as nat,
                            );
                        }
                        return Err(e);
                    },
                }
            },
            _ => {
                proof {
                    lemma_anno_error(node.children, (i + 1) as nat, node.children.len() as nat);
                }
                return Err(ParseError::UnexpectedRule);
            },
        }
        i = i + 1;
    }
    Ok(AstAnnoPart { anno_type, anno_expr })
}

/// Reads the parts of a definition of the given kind from the children of
/// the node.
pub fn parse_parts(kind: DefKind, node: &ParseNode) -> (r: Result<DefParts, ParseError>)
    ensures
        match parts_upto(kind, node.children, node.children.len() as nat) {
            Ok(m) => r is Ok && r->Ok_0@ == m,
            Err(e) => r is Err && r->Err_0 == e,
        },
    decreases node, 0nat,
{
    let mut parts = DefParts {
        annotations: Vec::new(),
        name: String::new(),
        arg_names: Vec::new(),
        body_stmts: Vec::new(),
    };
    let mut i: usize = 0;
    proof {
        assert(parts@.annotations =~= Seq::<AnnoModel>::empty());
        assert(parts@.arg_names =~= Seq::<Seq<char>>::empty());
        assert(parts@.body =~= Seq::<StmtModel>::empty());
    }
    while i < node.children.len()
        invariant
            i <= node.children.len(),
            parts_upto(kind, node.children, i as nat) == Ok::<PartsModel, ParseError>(parts@),
        decreases node.children.len() - i,
    {
        let child = &node.children[i];
        let ghost before = parts@;
        match child.rule {
            Rule::Id => {
                match kind {
                    DefKind::Lambda => {
                        parts.arg_names.push(child.text.clone());
                        proof {
                            assert(parts@.arg_names =~= before.arg_names.push(child.text@));
                        }
                    },
                    _ => {
                        parts.name = child.text.clone();
                    },
                }
            },
            Rule::Args => match parse_names(child) {
                Ok(names) => {
                    parts.arg_names = names;
                },
                Err(e) => {
                    proof {
                        lemma_parts_error(
                            kind,
                            node.children,
                            (i + 1) as nat,
                            node.children.len() as nat,
                        );
                    }
                    return Err(e);
                },
            },
            Rule::FuncBody => match parse_stmts(child) {
                Ok(body) => {
                    parts.body_stmts = body;
                },
                Err(e) => {
                    proof {
                        lemma_parts_error(
                            kind,
                            node.children,
                            (i + 1) as nat,
                            node.children.len() as nat,
                        );
                    }
                    return Err(e);
                },
            },
            Rule::AnnoPart => {
                match kind {
                    DefKind::Task => match parse_anno(child) {
                        Ok(a) => {
                            parts.annotations.push(a);
                            proof {
                                assert(parts@.annotations =~= before.annotations.push(a@));
                            }
                        },
                        Err(e) => {
                            proof {
                                lemma_parts_error(
                                    kind,
                                    node.children,
                                    (i + 1) as nat,
                                    node.children.len() as nat,
                                );
                            }
                            return Err(e);
                        },
                    },
                    _ => {
                        proof {
                            lemma_parts_error(
                                kind,
                                node.children,
                                (i + 1) as nat,
                                node.children.len() as nat,
                            );
                        }
                        return Err(ParseError::UnexpectedRule);
                    },
                }
            },
            _ => {
                proof {
                    lemma_parts_error(
                        kind,
                        node.children,
                        (i + 1) as nat,
                        node.children.len() as nat,
                    );
                }
                return Err(ParseError::UnexpectedRule);
            },
        }
        i = i + 1;
    }
    Ok(parts)
}

/// Reads the definition of a function or of a task.
pub fn parse_func(node: &ParseNode) -> (r: Result<AstFunc, ParseError>)
    ensures
        match func_of(*node) {
            Ok(m) => r is Ok && r->Ok_0@ == m,
            Err(e) => r is Err && r->Err_0 == e,
        },
    decreases node, 1nat,
{
    match node.rule {
        Rule::FuncStmt => match parse_parts(DefKind::Func, node) {
            Ok(p) => Ok(
                AstFunc::FasFunc(
                    FasFunc { name: p.name, arg_names: p.arg_names, body_stmts: p.body_stmts },
                ),
            ),
            Err(e) => Err(e),
        },
        Rule::TaskStmt => match parse_parts(DefKind::Task, node) {
            Ok(p) => Ok(
                AstFunc::FasTask(
                    FasTask {
                        annotations: p.annotations,
                        name: p.name,
                        arg_names: p.arg_names,
                        body_stmts: p.body_stmts,
                    },
                ),
            ),
            Err(e) => Err(e),
        },
        _ => Err(ParseError::UnexpectedRule),
    }
}

impl AstExpr {
    /// Reads an expression that was taken apart; see [`parse_middle_expr`].
    pub fn parse_middle_expr(root: &ParseNode) -> (r: Result<
        (Vec<AstStmt>, AstExpr, Vec<AstStmt>),
        ParseError,
    >)
        ensures
            match middle_upto(root.children, root.children.len() as nat) {
                Ok(m) => r is Ok && stmt_models(r->Ok_0.0) == m.before && r->Ok_0.1@ == (match m.expr {
                    Some(x) => x,
                    None => ExprModel::Empty,
                }) && stmt_models(r->Ok_0.2) == m.after,
                Err(e) => r is Err && r->Err_0 == e,
            },
    {
        parse_middle_expr(root)
    }
}

impl AstStmt {
    /// Reads the statements of a body or of a script.
    pub fn parse_stmts(root: &ParseNode) -> (r: Result<Vec<AstStmt>, ParseError>)
        ensures
            match stmts_upto(root.children, root.children.len() as nat) {
                Ok(m) => r is Ok && stmt_models(r->Ok_0) == m,
                Err(e) => r is Err && r->Err_0 == e,
            },
    {
        parse_stmts(root)
    }
}

/// A function with no name, no parameters and no statements.
fn empty_func() -> FasFunc {
    FasFunc { name: String::new(), arg_names: Vec::new(), body_stmts: Vec::new() }
}

impl AstAnnoPart {
    /// Reads an annotation: its keyword, which must be `pause`, `resume`,
    /// `degradation`, `rollback` or `retry`, and its expression, which must
    /// have been taken apart into no statements. Any other tree is refused
    /// with the error of the first node at fault.
    pub fn try_parse(root: &ParseNode) -> (r: Result<AstAnnoPart, ParseError>)
        ensures
            match anno_upto(root.children, root.children.len() as nat) {
                Ok(m) => r is Ok && r->Ok_0@ == m,
                Err(e) => r is Err && r->Err_0 == e,
            },
    {
        parse_anno(root)
    }

    /// Reads an annotation. To be called on the tree of an annotation with
    /// one of the five keywords and an expression without statements;
    /// [`AstAnnoPart::try_parse`] tells.
    pub fn parse(root: &ParseNode) -> (anno: AstAnnoPart)
        requires
            anno_upto(root.children, root.children.len() as nat) is Ok,
        ensures
            anno@ == anno_upto(root.children, root.children.len() as nat)->Ok_0,
    {
        match parse_anno(root) {
            Ok(anno) => anno,
            Err(_) => AstAnnoPart { anno_type: String::new(), anno_expr: AstExpr::Empty },
        }
    }
}

impl FasFunc {
    /// Reads the definition of a function: its name, its parameters and its
    /// body. Any other tree is refused.
    pub fn try_parse(root: &ParseNode) -> (r: Result<FasFunc, ParseError>)
        ensures
            match parts_upto(DefKind::Func, root.children, root.children.len() as nat) {
                Ok(p) => r is Ok && r->Ok_0@ == func_from(p),
                Err(e) => r is Err && r->Err_0 == e,
            },
    {
        match parse_parts(DefKind::Func, root) {
            Ok(p) => Ok(FasFunc { name: p.name, arg_names: p.arg_names, body_stmts: p.body_stmts }),
            Err(e) => Err(e),
        }
    }

    /// Reads the definition of a function. To be called on a tree that is
    /// one; [`FasFunc::try_parse`] tells.
    pub fn parse(root: &ParseNode) -> (func: FasFunc)
        requires
            parts_upto(DefKind::Func, root.children, root.children.len() as nat) is Ok,
        ensures
            func@ == func_from(
                parts_upto(DefKind::Func, root.children, root.children.len() as nat)->Ok_0,
            ),
    {
        match Self::try_parse(root) {
            Ok(func) => func,
            Err(_) => empty_func(),
        }
    }

    /// Reads a function without a name: each name among the children is
    /// one more parameter. Any other tree is refused.
    pub fn try_parse_lambda(root: &ParseNode) -> (r: Result<FasFunc, ParseError>)
        ensures
            match parts_upto(DefKind::Lambda, root.children, root.children.len() as nat) {
                Ok(p) => r is Ok && r->Ok_0@ == func_from(p),
                Err(e) => r is Err && r->Err_0 == e,
            },
    {
        match parse_parts(DefKind::Lambda, root) {
            Ok(p) => Ok(FasFunc { name: p.name, arg_names: p.arg_names, body_stmts: p.body_stmts }),
            Err(e) => Err(e),
        }
    }

    /// Reads a function without a name. To be called on a tree that is
    /// one; [`FasFunc::try_parse_lambda`] tells.
    pub fn parse_lambda(root: &ParseNode) -> (func: FasFunc)
        requires
            parts_upto(DefKind::Lambda, root.children, root.children.len() as nat) is Ok,
        ensures
            func@ == func_from(
                parts_upto(DefKind::Lambda, root.children, root.children.len() as nat)->Ok_0,
            ),
    {
        match Self::try_parse_lambda(root) {
            Ok(func) => func,
            Err(_) => empty_func(),
        }
    }
}

impl FasTask {
    /// Reads the definition of a task: its annotations in the order in
    /// which they stand, its name, its parameters and its body. Any other
    /// tree is refused.
    pub fn try_parse(root: &ParseNode) -> (r: Result<FasTask, ParseError>)
        ensures
            match parts_upto(DefKind::Task, root.children, root.children.len() as nat) {
                Ok(p) => r is Ok && r->Ok_0@ == task_from(p),
                Err(e) => r is Err && r->Err_0 == e,
            },
    {
        match parse_parts(DefKind::Task, root) {
            Ok(p) => Ok(
                FasTask {
                    annotations: p.annotations,
                    name: p.name,
                    arg_names: p.arg_names,
                    body_stmts: p.body_stmts,
                },
            ),
            Err(e) => Err(e),
        }
    }

    /// Reads the definition of a task. To be called on a tree that is one;
    /// [`FasTask::try_parse`] tells.
    pub fn parse(root: &ParseNode) -> (task: FasTask)
        requires
            parts_upto(DefKind::Task, root.children, root.children.len() as nat) is Ok,
        ensures
            task@ == task_from(
                parts_upto(DefKind::Task, root.children, root.children.len() as nat)->Ok_0,
            ),
    {
        match Self::try_parse(root) {
            Ok(task) => task,
            Err(_) => FasTask {
                annotations: Vec::new(),
                name: String::new(),
                arg_names: Vec::new(),
                body_stmts: Vec::new(),
            },
        }
    }
}

impl AstFunc {
    /// Reads the definition of a function or of a task, as the node's rule
    /// says. A node of another rule is refused, and so is a tree that is no
    /// such definition.
    pub fn try_parse(root: &ParseNode) -> (r: Result<AstFunc, ParseError>)
        ensures
            match func_of(*root) {
                Ok(m) => r is Ok && r->Ok_0@ == m,
                Err(e) => r is Err && r->Err_0 == e,
            },
    {
        parse_func(root)
    }

    /// Reads the definition of a function or of a task. To be called on the
    /// tree of one; [`AstFunc::try_parse`] tells.
    pub fn parse(root: &ParseNode) -> (func: AstFunc)
        requires
            func_of(*root) is Ok,
        ensures
            func@ == func_of(*root)->Ok_0,
    {
        match parse_func(root) {
            Ok(func) => func,
            Err(_) => AstFunc::FasFunc(empty_func()),
        }
    }

    /// Reads a function without a name. Any other tree is refused.
    pub fn try_parse_lambda(root: &ParseNode) -> (r: Result<AstFunc, ParseError>)
        ensures
            match parts_upto(DefKind::Lambda, root.children, root.children.len() as nat) {
                Ok(p) => r is Ok && r->Ok_0@ == FuncModel::Func(func_from(p)),
                Err(e) => r is Err && r->Err_0 == e,
            },
    {
        match FasFunc::try_parse_lambda(root) {
            Ok(f) => Ok(AstFunc::FasFunc(f)),
            Err(e) => Err(e),
        }
    }

    /// Reads a function without a name. To be called on a tree that is
    /// one; [`AstFunc::try_parse_lambda`] tells.
    pub fn parse_lambda(root: &ParseNode) -> (func: AstFunc)
        requires
            parts_upto(DefKind::Lambda, root.children, root.children.len() as nat) is Ok,
        ensures
            func@ == FuncModel::Func(
                func_from(
                    parts_upto(DefKind::Lambda, root.children, root.children.len() as nat)->Ok_0,
                ),
            ),
    {
        AstFunc::FasFunc(FasFunc::parse_lambda(root))
    }
}

} // verus!

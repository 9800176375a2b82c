use fascript::ast::{AstExpr, AstStmt};
use fascript::float::FasFloat;
use fascript::func::{AstAnnoPart, AstFunc, FasFunc, FasTask};
use fascript::parse::{parse_expr, parse_stmt};
use fascript::syntax::{parse_i64, parse_u64, ParseError, ParseNode, Rule};
use fascript::value::FasValue;
use fascript::{FasCallable, FasRuntime, FasToWrapper, Progress};

struct Echo;

impl FasCallable for Echo {
    fn get_arg_count(&self) -> usize {
        1
    }

    fn call(&self, mut args: Vec<FasValue>) -> FasValue {
        args.pop().unwrap()
    }
}

impl FasToWrapper<()> for Echo {
    type Wrapped = Echo;

    fn convert(self) -> Echo {
        self
    }
}

fn node(rule: Rule, text: &str, children: Vec<ParseNode>) -> ParseNode {
    ParseNode { rule, text: text.to_string(), children }
}

fn leaf(rule: Rule, text: &str) -> ParseNode {
    node(rule, text, vec![])
}

fn name(text: &str) -> ParseNode {
    leaf(Rule::Id, text)
}

fn anno_node(kind: &str, expr: Vec<ParseNode>) -> ParseNode {
    node(Rule::AnnoPart, "", vec![name(kind), node(Rule::MiddleExpr, "", expr)])
}

fn call_node(callee: &str, args: Vec<ParseNode>) -> ParseNode {
    let mut children = vec![name(callee)];
    children.extend(args);
    node(Rule::CallExpr, "", children)
}

fn body(stmts: Vec<ParseNode>) -> ParseNode {
    node(Rule::FuncBody, "", stmts)
}

fn expr_stmt(e: ParseNode) -> ParseNode {
    node(Rule::ExprStmt, "", vec![e])
}

#[test]
fn each_of_the_five_annotations_is_read() {
    for kind in ["pause", "resume", "degradation", "rollback", "retry"] {
        let a = AstAnnoPart::try_parse(&anno_node(kind, vec![leaf(Rule::IntLit, "3")])).unwrap();
        assert_eq!(a.anno_type, kind);
        assert!(matches!(a.anno_expr, AstExpr::Int(3)));
    }
}

#[test]
fn an_annotation_of_another_kind_is_refused() {
    for kind in ["", "Retry", "retries", "timeout", "pause "] {
        let r = AstAnnoPart::try_parse(&anno_node(kind, vec![leaf(Rule::IntLit, "3")]));
        assert!(matches!(r, Err(ParseError::UnknownAnnotation)), "for {:?}", kind);
    }
}

#[test]
fn an_annotation_whose_expression_comes_with_statements_is_refused() {
    let before = anno_node(
        "retry",
        vec![expr_stmt(leaf(Rule::IntLit, "1")), leaf(Rule::IntLit, "3")],
    );
    assert!(matches!(AstAnnoPart::try_parse(&before), Err(ParseError::AnnotationNotExpression)));
    let after = anno_node(
        "retry",
        vec![leaf(Rule::IntLit, "3"), expr_stmt(leaf(Rule::IntLit, "1"))],
    );
    assert!(matches!(AstAnnoPart::try_parse(&after), Err(ParseError::AnnotationNotExpression)));
    let two = anno_node("retry", vec![leaf(Rule::IntLit, "3"), leaf(Rule::IntLit, "4")]);
    assert!(matches!(AstAnnoPart::try_parse(&two), Err(ParseError::UnexpectedRule)));
    let stray = node(Rule::AnnoPart, "", vec![name("retry"), leaf(Rule::IntLit, "3")]);
    assert!(matches!(AstAnnoPart::try_parse(&stray), Err(ParseError::UnexpectedRule)));
}

#[test]
fn an_expression_taken_apart_keeps_its_statements_in_order() {
    let middle = node(
        Rule::MiddleExpr,
        "",
        vec![
            expr_stmt(leaf(Rule::IntLit, "1")),
            expr_stmt(leaf(Rule::IntLit, "2")),
            name("x"),
            expr_stmt(leaf(Rule::IntLit, "3")),
        ],
    );
    let (before, expr, after) = AstExpr::parse_middle_expr(&middle).unwrap();
    assert_eq!(before.len(), 2);
    assert!(matches!(before[1], AstStmt::Expr(AstExpr::Int(2))));
    assert!(matches!(expr, AstExpr::Id(ref n) if n == "x"));
    assert_eq!(after.len(), 1);
    let empty = node(Rule::MiddleExpr, "", vec![]);
    let (before, expr, after) = AstExpr::parse_middle_expr(&empty).unwrap();
    assert!(before.is_empty() && after.is_empty());
    assert!(matches!(expr, AstExpr::Empty));
}

#[test]
fn a_task_is_read_with_its_annotations_in_order() {
    let tree = node(
        Rule::TaskStmt,
        "",
        vec![
            anno_node("retry", vec![leaf(Rule::IntLit, "3")]),
            anno_node("degradation", vec![leaf(Rule::StrLit, "fallback")]),
            name("retry_func"),
            node(Rule::Args, "", vec![name("a"), name("b")]),
            body(vec![expr_stmt(call_node("os.println", vec![leaf(Rule::StrLit, "on retry_func()")]))]),
        ],
    );
    let task = FasTask::try_parse(&tree).unwrap();
    assert_eq!(task.name, "retry_func");
    assert_eq!(task.arg_names, vec!["a".to_string(), "b".to_string()]);
    assert_eq!(task.annotations.len(), 2);
    assert_eq!(task.annotations[0].anno_type, "retry");
    assert_eq!(task.annotations[1].anno_type, "degradation");
    assert_eq!(task.body_stmts.len(), 1);
    match AstFunc::try_parse(&tree).unwrap() {
        AstFunc::FasTask(t) => {
            assert_eq!(t.name, "retry_func");
            assert_eq!(AstFunc::FasTask(t).get_name(), "retry_func");
        }
        other => panic!("unexpected {:?}", other),
    }
}

#[test]
fn a_function_is_read_and_may_have_no_annotation() {
    let tree = node(
        Rule::FuncStmt,
        "",
        vec![
            name("main"),
            node(Rule::Args, "", vec![]),
            body(vec![node(Rule::ReturnStmt, "", vec![leaf(Rule::TrueLit, "true")])]),
        ],
    );
    let func = FasFunc::try_parse(&tree).unwrap();
    assert_eq!(func.name, "main");
    assert!(func.arg_names.is_empty());
    assert!(matches!(func.body_stmts[0], AstStmt::Return(AstExpr::Bool(true))));
    let f = AstFunc::try_parse(&tree).unwrap();
    assert_eq!(f.get_name(), "main");
    assert_eq!(f.arity(), 0);
    let annotated = node(
        Rule::FuncStmt,
        "",
        vec![anno_node("retry", vec![leaf(Rule::IntLit, "3")]), name("main")],
    );
    assert!(matches!(FasFunc::try_parse(&annotated), Err(ParseError::UnexpectedRule)));
    assert!(matches!(AstFunc::try_parse(&name("x")), Err(ParseError::UnexpectedRule)));
    let bad_args = node(
        Rule::FuncStmt,
        "",
        vec![name("f"), node(Rule::Args, "", vec![leaf(Rule::IntLit, "1")])],
    );
    assert!(matches!(FasFunc::try_parse(&bad_args), Err(ParseError::UnexpectedRule)));
}

#[test]
fn a_function_without_a_name_takes_names_as_parameters() {
    let tree = node(
        Rule::LambdaExpr,
        "",
        vec![name("s"), body(vec![expr_stmt(call_node("os.println", vec![name("s")]))])],
    );
    let lambda = FasFunc::try_parse_lambda(&tree).unwrap();
    assert_eq!(lambda.name, "");
    assert_eq!(lambda.arg_names, vec!["s".to_string()]);
    assert_eq!(lambda.body_stmts.len(), 1);
    let f = AstFunc::try_parse_lambda(&tree).unwrap();
    assert_eq!(f.get_name(), "");
    assert_eq!(f.arity(), 1);
    assert!(matches!(parse_expr(&tree), Ok(AstExpr::Lambda(_))));
    let listed = node(
        Rule::LambdaExpr,
        "",
        vec![name("s"), node(Rule::Args, "", vec![name("a"), name("b")])],
    );
    assert_eq!(FasFunc::try_parse_lambda(&listed).unwrap().arg_names.len(), 2);
}

#[test]
fn literals_are_read_from_their_text() {
    assert!(matches!(parse_expr(&leaf(Rule::NullLit, "null")), Ok(AstExpr::Null)));
    assert!(matches!(parse_expr(&leaf(Rule::FalseLit, "false")), Ok(AstExpr::Bool(false))));
    assert!(matches!(parse_expr(&leaf(Rule::IntLit, "-12")), Ok(AstExpr::Int(-12))));
    assert!(matches!(parse_expr(&leaf(Rule::IntLit, "12a")), Err(ParseError::BadLiteral)));
    assert!(matches!(parse_expr(&leaf(Rule::IntLit, "")), Err(ParseError::BadLiteral)));
    let bits = 2.5f64.to_bits();
    match parse_expr(&leaf(Rule::FloatLit, &bits.to_string())) {
        Ok(AstExpr::Float(FasFloat { bits: b })) => assert_eq!(f64::from_bits(b), 2.5),
        other => panic!("unexpected {:?}", other),
    }
    assert!(matches!(parse_expr(&leaf(Rule::StrLit, "a b")), Ok(AstExpr::Str(ref s)) if s == "a b"));
    assert!(matches!(parse_expr(&leaf(Rule::Program, "")), Err(ParseError::UnexpectedRule)));
}

#[test]
fn numbers_are_read_up_to_the_ends_of_their_range() {
    assert_eq!(parse_u64("0", 0), Some(0));
    assert_eq!(parse_u64("18446744073709551615", 0), Some(u64::MAX));
    assert_eq!(parse_u64("18446744073709551616", 0), None);
    assert_eq!(parse_u64("99999999999999999999999", 0), None);
    assert_eq!(parse_u64("x42", 1), Some(42));
    assert_eq!(parse_u64("42", 2), None);
    assert_eq!(parse_u64("4 2", 0), None);
    assert_eq!(parse_i64("9223372036854775807"), Some(i64::MAX));
    assert_eq!(parse_i64("9223372036854775808"), None);
    assert_eq!(parse_i64("-9223372036854775808"), Some(i64::MIN));
    assert_eq!(parse_i64("-9223372036854775809"), None);
    assert_eq!(parse_i64("-"), None);
    assert_eq!(parse_i64("+1"), None);
    assert_eq!(parse_i64("007"), Some(7));
    for i in [0i64, 1, -1, 42, -4096, i64::MAX, i64::MIN] {
        assert_eq!(parse_i64(&fascript::text::int_to_text(i)), Some(i));
    }
}

#[test]
fn statements_are_read_by_their_rule() {
    let assign = node(Rule::AssignStmt, "", vec![name("x"), leaf(Rule::IntLit, "1")]);
    assert!(matches!(parse_stmt(&assign), Ok(AstStmt::Assign { ref name, .. }) if name == "x"));
    let bare_return = node(Rule::ReturnStmt, "", vec![]);
    assert!(matches!(parse_stmt(&bare_return), Ok(AstStmt::Return(AstExpr::Empty))));
    let awaiting = expr_stmt(node(Rule::AwaitExpr, "", vec![call_node("f", vec![])]));
    match parse_stmt(&awaiting) {
        Ok(AstStmt::Expr(AstExpr::Await(inner))) => {
            assert!(matches!(*inner, AstExpr::Call { ref name, .. } if name == "f"))
        }
        other => panic!("unexpected {:?}", other),
    }
    assert!(matches!(parse_stmt(&name("x")), Err(ParseError::UnexpectedRule)));
    let two = node(Rule::ExprStmt, "", vec![name("x"), name("y")]);
    assert!(matches!(parse_stmt(&two), Err(ParseError::UnexpectedRule)));
    let program = node(Rule::Program, "", vec![assign, node(Rule::IntLit, "1", vec![])]);
    assert!(matches!(AstStmt::parse_stmts(&program), Err(ParseError::UnexpectedRule)));
}

#[test]
fn a_parsed_script_with_a_retrying_task_runs_its_body_once() {
    let program = node(
        Rule::Program,
        "",
        vec![
            node(
                Rule::TaskStmt,
                "",
                vec![
                    anno_node("retry", vec![leaf(Rule::IntLit, "3")]),
                    name("retry_func"),
                    node(Rule::Args, "", vec![]),
                    body(vec![expr_stmt(call_node(
                        "os.println",
                        vec![leaf(Rule::StrLit, "on retry_func()")],
                    ))]),
                ],
            ),
            expr_stmt(node(Rule::AwaitExpr, "", vec![call_node("retry_func", vec![])])),
        ],
    );
    let mut runtime = FasRuntime::new();
    runtime.set_func("os.println".to_string(), Echo);
    assert!(runtime.run(&program).is_ok());
    let mut input: Option<FasValue> = None;
    let mut attempts = 0;
    loop {
        match runtime.advance(input.take(), 100) {
            Progress::Finished => break,
            Progress::Spawned(request) => {
                let mut execution = fascript::execution::TaskExecution::new(
                    request,
                    &runtime.runner.globals.scope,
                );
                let mut given: Option<FasValue> = None;
                loop {
                    match execution.step(&mut runtime.runner.globals, given.take()) {
                        fascript::execution::TaskStep::CallNative { slot, args } => {
                            given = runtime.call_native(slot, args)
                        }
                        fascript::execution::TaskStep::Ended => break,
                        _ => {}
                    }
                }
                attempts = execution.progress.retries_used + 1;
            }
            Progress::Blocked(handle) => input = handle.try_await(10).result(),
            other => panic!("unexpected {:?}", other),
        }
    }
    assert_eq!(attempts, 1);
    assert!(runtime.get_return_value() == Some(FasValue::String("on retry_func()".to_string())));
    let broken = node(Rule::Program, "", vec![name("x")]);
    assert!(matches!(runtime.run(&broken), Err(ParseError::UnexpectedRule)));
}

#[test]
fn a_tree_that_is_known_to_be_right_is_read_without_a_result() {
    let anno = anno_node("retry", vec![leaf(Rule::IntLit, "3")]);
    assert!(AstAnnoPart::try_parse(&anno).is_ok());
    assert_eq!(AstAnnoPart::parse(&anno).anno_type, "retry");
    let tree = node(
        Rule::TaskStmt,
        "",
        vec![anno, name("t"), node(Rule::Args, "", vec![name("a")]), body(vec![])],
    );
    assert!(FasTask::try_parse(&tree).is_ok());
    let task = FasTask::parse(&tree);
    assert_eq!(task.name, "t");
    assert_eq!(task.annotations.len(), 1);
    assert!(matches!(AstFunc::parse(&tree), AstFunc::FasTask(_)));
    let func = node(Rule::FuncStmt, "", vec![name("f"), body(vec![])]);
    assert!(FasFunc::try_parse(&func).is_ok());
    assert_eq!(FasFunc::parse(&func).name, "f");
    assert!(matches!(AstFunc::parse(&func), AstFunc::FasFunc(_)));
    let lambda = node(Rule::LambdaExpr, "", vec![name("x"), body(vec![])]);
    assert!(FasFunc::try_parse_lambda(&lambda).is_ok());
    assert_eq!(FasFunc::parse_lambda(&lambda).arg_names, vec!["x".to_string()]);
    assert_eq!(AstFunc::parse_lambda(&lambda).arity(), 1);
}

use best::ast::Expr;
use best::env::{EvalEnv, Function};
use best::error::{BestError, Loc};
use best::eval::{eval_expr, eval_program, Value};
use best::semantics::{FloatArith, FloatTest};

fn at(line: i32, col: i32) -> Loc {
    Loc { line, col }
}

fn int_lit(n: i64) -> Expr {
    Expr::Int(n, at(1, 1))
}

fn flt(x: f64) -> Expr {
    Expr::Float(x.to_bits(), at(1, 1))
}

fn boolean(b: bool) -> Expr {
    Expr::Bool(b, at(1, 1))
}

fn text(s: &str) -> Expr {
    Expr::Str(s.to_string(), at(1, 1))
}

fn id(s: &str) -> Expr {
    Expr::Id(s.to_string(), at(1, 1))
}

fn ty(s: &str) -> Expr {
    Expr::TypeName(s.to_string(), at(1, 1))
}

fn list(items: Vec<Expr>) -> Expr {
    Expr::List(items, at(1, 1))
}

fn list_at(items: Vec<Expr>, loc: Loc) -> Expr {
    Expr::List(items, loc)
}

fn float_arith(op: FloatArith, a: u64, b: u64) -> u64 {
    let (x, y) = (f64::from_bits(a), f64::from_bits(b));
    let r = match op {
        FloatArith::Add => x + y,
        FloatArith::Sub => x - y,
        FloatArith::Mul => x * y,
        FloatArith::Div => x / y,
    };
    r.to_bits()
}

fn float_test(op: FloatTest, a: u64, b: u64) -> bool {
    let (x, y) = (f64::from_bits(a), f64::from_bits(b));
    match op {
        FloatTest::Eq => x == y,
        FloatTest::Ne => x != y,
        FloatTest::Lt => x < y,
        FloatTest::Gt => x > y,
        FloatTest::Le => x <= y,
        FloatTest::Ge => x >= y,
    }
}

fn float_text(b: u64) -> String {
    format!("{}", f64::from_bits(b))
}

fn shown(out: &[Value]) -> Vec<String> {
    out.iter().map(|v| v.describe(&float_text)).collect()
}

fn run(program: &[Expr]) -> (Result<(), BestError>, Vec<String>) {
    let mut out: Vec<Value> = Vec::new();
    let r = eval_program(program, u64::MAX, &mut out, &float_arith, &float_test);
    (r, shown(&out))
}

fn eval_alone(e: &Expr) -> Result<Value, BestError> {
    let mut env = EvalEnv::new();
    let mut out: Vec<Value> = Vec::new();
    eval_expr(e, &mut env, u64::MAX, &mut out, &float_arith, &float_test)
}

fn eval_shown(e: &Expr) -> String {
    eval_alone(e).unwrap().describe(&float_text)
}

fn eval_error(e: &Expr) -> String {
    eval_alone(e).unwrap_err().message
}

fn function(name: &str, params: &[&str], body: Expr) -> Vec<Expr> {
    vec![
        list(vec![id("declare"), id(name), list(vec![]), ty("int")]),
        list(vec![id("defun"), id(name), list(params.iter().map(|p| id(p)).collect()), body]),
    ]
}

#[test]
fn factorial_of_ten() {
    let mut program = function(
        "factorial",
        &["n"],
        list(vec![
            id("if"),
            list(vec![id("=="), id("n"), int_lit(0)]),
            int_lit(1),
            list(vec![id("*"), id("n"), list(vec![id("factorial"), list(vec![id("-"), id("n"), int_lit(1)])])]),
        ]),
    );
    program.push(list(vec![id("print"), list(vec![id("factorial"), int_lit(10)])]));
    let (r, out) = run(&program);
    assert!(r.is_ok());
    assert_eq!(out, vec!["3628800"]);
}

#[test]
fn fibonacci_of_ten() {
    let mut program = function(
        "fib",
        &["n"],
        list(vec![
            id("if"),
            list(vec![id("<"), id("n"), int_lit(2)]),
            id("n"),
            list(vec![
                id("+"),
                list(vec![id("fib"), list(vec![id("-"), id("n"), int_lit(1)])]),
                list(vec![id("fib"), list(vec![id("-"), id("n"), int_lit(2)])]),
            ]),
        ]),
    );
    program.push(list(vec![id("print"), list(vec![id("fib"), int_lit(10)])]));
    let (r, out) = run(&program);
    assert!(r.is_ok());
    assert_eq!(out, vec!["55"]);
}

#[test]
fn while_loop_counts_down() {
    let program = vec![
        list(vec![id("let"), id("x"), ty("int"), int_lit(10)]),
        list(vec![
            id("while"),
            list(vec![id(">"), id("x"), int_lit(0)]),
            list(vec![id("print"), id("x")]),
            list(vec![id("assign"), id("x"), list(vec![id("-"), id("x"), int_lit(1)])]),
        ]),
    ];
    let (r, out) = run(&program);
    assert!(r.is_ok());
    assert_eq!(out, vec!["10", "9", "8", "7", "6", "5", "4", "3", "2", "1"]);
}

#[test]
fn strings_concat_and_length() {
    let program = vec![
        list(vec![id("let"), id("s"), ty("str"), list(vec![id("concat"), text("Hello, "), text("World")])]),
        list(vec![id("print"), id("s")]),
        list(vec![id("print"), list(vec![id("length"), id("s")])]),
    ];
    let (r, out) = run(&program);
    assert!(r.is_ok());
    assert_eq!(out, vec!["Hello, World", "12"]);
}

#[test]
fn length_counts_characters_not_bytes() {
    assert_eq!(eval_shown(&list(vec![id("length"), text("héllo")])), "5");
}

#[test]
fn functions_may_be_called_before_their_definition() {
    let mut program = vec![list(vec![id("print"), list(vec![id("twice"), int_lit(21)])])];
    program.extend(function("twice", &["n"], list(vec![id("+"), id("n"), id("n")])));
    let (r, out) = run(&program);
    assert!(r.is_ok());
    assert_eq!(out, vec!["42"]);
}

#[test]
fn integer_and_float_arithmetic() {
    assert_eq!(eval_shown(&list(vec![id("+"), int_lit(2), int_lit(3)])), "5");
    assert_eq!(eval_shown(&list(vec![id("-"), int_lit(2), int_lit(3)])), "-1");
    assert_eq!(eval_shown(&list(vec![id("*"), int_lit(-4), int_lit(3)])), "-12");
    assert_eq!(eval_shown(&list(vec![id("/"), int_lit(7), int_lit(2)])), "3");
    assert_eq!(eval_shown(&list(vec![id("/"), int_lit(-7), int_lit(2)])), "-3");
    assert_eq!(eval_shown(&list(vec![id("+"), flt(1.5), flt(2.25)])), "3.75");
    assert_eq!(eval_shown(&list(vec![id("/"), flt(1.0), flt(4.0)])), "0.25");
    assert_eq!(eval_shown(&list(vec![id("*"), flt(3.0), flt(2.0)])), "6");
}

#[test]
fn comparisons_and_logic() {
    assert_eq!(eval_shown(&list(vec![id("<"), int_lit(1), int_lit(2)])), "true");
    assert_eq!(eval_shown(&list(vec![id(">="), int_lit(1), int_lit(2)])), "false");
    assert_eq!(eval_shown(&list(vec![id("<="), flt(2.0), flt(2.0)])), "true");
    assert_eq!(eval_shown(&list(vec![id("=="), boolean(true), boolean(true)])), "true");
    assert_eq!(eval_shown(&list(vec![id("!="), int_lit(1), int_lit(1)])), "false");
    assert_eq!(eval_shown(&list(vec![id("!="), flt(1.0), flt(2.0)])), "true");
    assert_eq!(eval_shown(&list(vec![id("and"), boolean(true), boolean(false)])), "false");
    assert_eq!(eval_shown(&list(vec![id("or"), boolean(true), boolean(false)])), "true");
    assert_eq!(eval_shown(&list(vec![id("not"), boolean(true)])), "false");
}

#[test]
fn string_equality_and_inequality() {
    assert_eq!(eval_shown(&list(vec![id("=="), text("a"), text("a")])), "true");
    assert_eq!(eval_shown(&list(vec![id("=="), text("a"), text("b")])), "false");
    assert_eq!(eval_shown(&list(vec![id("!="), text("a"), text("a")])), "false");
    assert_eq!(eval_shown(&list(vec![id("!="), text("a"), text("b")])), "true");
}

#[test]
fn division_by_zero_is_an_error_at_the_division() {
    let e = eval_alone(&list_at(vec![id("/"), int_lit(1), int_lit(0)], at(3, 4))).unwrap_err();
    assert_eq!(e.describe(), "error at line 3, column 4: division by zero");
    let e = eval_alone(&list_at(vec![id("/"), flt(1.0), flt(0.0)], at(5, 6))).unwrap_err();
    assert_eq!(e.describe(), "error at line 5, column 6: division by zero");
}

#[test]
fn integer_overflow_is_an_error() {
    assert_eq!(eval_error(&list(vec![id("+"), int_lit(i64::MAX), int_lit(1)])), "attempt to add with overflow");
    assert_eq!(eval_error(&list(vec![id("-"), int_lit(i64::MIN), int_lit(1)])), "attempt to subtract with overflow");
    assert_eq!(eval_error(&list(vec![id("*"), int_lit(i64::MAX), int_lit(2)])), "attempt to multiply with overflow");
    assert_eq!(eval_error(&list(vec![id("/"), int_lit(i64::MIN), int_lit(-1)])), "attempt to divide with overflow");
}

#[test]
fn evaluator_reports_ill_typed_operands() {
    assert_eq!(eval_error(&list(vec![id("+"), int_lit(1), text("a")])), "'+' requires numeric operands");
    assert_eq!(eval_error(&list(vec![id("/"), int_lit(1), flt(1.0)])), "'/' requires numeric operands of the same type");
    assert_eq!(eval_error(&list(vec![id("=="), int_lit(1), text("a")])), "'==' type mismatch");
    assert_eq!(eval_error(&list(vec![id("<"), text("a"), text("b")])), "'<' requires numeric operands");
    assert_eq!(eval_error(&list(vec![id("and"), int_lit(1), boolean(true)])), "'and' requires bool operands");
    assert_eq!(eval_error(&list(vec![id("length"), int_lit(1)])), "'length' requires str operands");
    assert_eq!(eval_error(&list(vec![id("if"), int_lit(1), int_lit(2), int_lit(3)])), "if condition must be bool");
    assert_eq!(eval_error(&list(vec![id("while"), int_lit(1)])), "while condition must be bool");
    assert_eq!(eval_error(&ty("int")), "type name in expression");
    assert_eq!(eval_error(&list(vec![])), "empty list is not a valid expression");
    assert_eq!(eval_error(&list(vec![int_lit(1)])), "list head must be an identifier");
    assert_eq!(eval_error(&id("nope")), "undefined variable 'nope'");
    assert_eq!(eval_error(&list(vec![id("nope"), int_lit(1)])), "undefined function 'nope'");
}

#[test]
fn void_equality_fails_at_run_time() {
    let e = list(vec![id("=="), list(vec![id("print"), int_lit(1)]), list(vec![id("print"), int_lit(2)])]);
    assert_eq!(eval_error(&e), "'==' type mismatch");
}

#[test]
fn declare_evaluates_to_void() {
    let v = eval_alone(&list(vec![id("declare"), id("f"), list(vec![]), ty("int")])).unwrap();
    assert!(matches!(v, Value::Void));
    assert_eq!(v.describe(&float_text), "");
}

#[test]
fn call_depth_limit_stops_runaway_recursion() {
    let mut env = EvalEnv::new();
    let mut out: Vec<Value> = Vec::new();
    env.funs.insert("f", Function { params: vec![], body: int_lit(1) });
    env.call_depth = 8000;
    let call = list_at(vec![id("f")], at(2, 2));
    let e = eval_expr(&call, &mut env, u64::MAX, &mut out, &float_arith, &float_test).unwrap_err();
    assert_eq!(e.describe(), "error at line 2, column 2: stack overflow calling 'f'");
    env.call_depth = 7999;
    let v = eval_expr(&call, &mut env, u64::MAX, &mut out, &float_arith, &float_test).unwrap();
    assert!(matches!(v, Value::Int(1)));
    assert_eq!(env.call_depth, 7999);
}

#[test]
fn function_scope_holds_parameters_and_sees_globals() {
    let mut program = vec![list(vec![id("let"), id("g"), ty("int"), int_lit(100)])];
    program.extend(function("addg", &["n"], list(vec![id("+"), id("n"), id("g")])));
    program.push(list(vec![id("print"), list(vec![id("addg"), int_lit(5)])]));
    program.push(list(vec![id("print"), id("g")]));
    let (r, out) = run(&program);
    assert!(r.is_ok());
    assert_eq!(out, vec!["105", "100"]);
}

#[test]
fn values_printed_before_an_error_are_kept() {
    let program = vec![
        list(vec![id("print"), int_lit(1)]),
        list(vec![id("print"), list(vec![id("/"), int_lit(1), int_lit(0)])]),
        list(vec![id("print"), int_lit(2)]),
    ];
    let (r, out) = run(&program);
    assert_eq!(r.unwrap_err().message, "division by zero");
    assert_eq!(out, vec!["1"]);
}

#[test]
fn evaluation_budget_bounds_a_loop() {
    let program = vec![list(vec![id("while"), boolean(true), int_lit(0)])];
    let mut out: Vec<Value> = Vec::new();
    let r = eval_program(&program, 50, &mut out, &float_arith, &float_test);
    assert_eq!(r.unwrap_err().describe(), "error: evaluation limit reached");
}

#[test]
fn later_defun_replaces_an_earlier_one() {
    let mut program = function("f", &[], int_lit(1));
    program.extend(function("f", &[], int_lit(2)));
    program.push(list(vec![id("print"), list(vec![id("f")])]));
    let (r, out) = run(&program);
    assert!(r.is_ok());
    assert_eq!(out, vec!["2"]);
}

#[test]
fn malformed_defun_is_reported_before_any_form_runs() {
    let program = vec![
        list(vec![id("print"), int_lit(1)]),
        list(vec![id("defun"), id("f"), list(vec![int_lit(3)]), int_lit(1)]),
    ];
    let (r, out) = run(&program);
    assert_eq!(r.unwrap_err().message, "defun: param must be an identifier");
    assert!(out.is_empty());
}

#[test]
fn value_text_of_each_kind() {
    assert_eq!(Value::Int(-42).describe(&float_text), "-42");
    assert_eq!(Value::Float(0.5f64.to_bits()).describe(&float_text), "0.5");
    assert_eq!(Value::Bool(false).describe(&float_text), "false");
    assert_eq!(Value::Str("hi".to_string()).describe(&float_text), "hi");
    assert_eq!(Value::Void.describe(&float_text), "");
}

#[test]
fn literals_and_names_evaluate_without_scopes() {
    let mut env = EvalEnv::new();
    env.pop_frame();
    let mut out: Vec<Value> = Vec::new();
    let v = eval_expr(&int_lit(7), &mut env, u64::MAX, &mut out, &float_arith, &float_test).unwrap();
    assert!(matches!(v, Value::Int(7)));
    let v = eval_expr(&text("s"), &mut env, u64::MAX, &mut out, &float_arith, &float_test).unwrap();
    assert_eq!(v.describe(&float_text), "s");
    let e = eval_expr(&id("x"), &mut env, u64::MAX, &mut out, &float_arith, &float_test).unwrap_err();
    assert_eq!(e.message, "undefined variable 'x'");
    assert!(out.is_empty());
}

#[test]
fn a_failing_call_restores_scopes_and_depth() {
    let mut env = EvalEnv::new();
    let mut out: Vec<Value> = Vec::new();
    env.funs.insert("f", Function { params: vec!["n".to_string()], body: list(vec![id("/"), id("n"), int_lit(0)]) });
    let call = list(vec![id("f"), int_lit(1)]);
    let e = eval_expr(&call, &mut env, u64::MAX, &mut out, &float_arith, &float_test).unwrap_err();
    assert_eq!(e.message, "division by zero");
    assert_eq!(env.call_depth, 0);
    assert!(env.lookup_var("n", &at(1, 1)).is_err());
}

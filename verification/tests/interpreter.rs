use best::ast::Expr;
use best::error::Loc;
use best::eval::Value;
use best::interpreter::check_and_run;
use best::semantics::{FloatArith, FloatTest};

fn at() -> Loc {
    Loc { line: 1, col: 1 }
}

fn int_lit(n: i64) -> Expr {
    Expr::Int(n, at())
}

fn id(s: &str) -> Expr {
    Expr::Id(s.to_string(), at())
}

fn ty(s: &str) -> Expr {
    Expr::TypeName(s.to_string(), at())
}

fn text(s: &str) -> Expr {
    Expr::Str(s.to_string(), at())
}

fn list(items: Vec<Expr>) -> Expr {
    Expr::List(items, at())
}

fn float_arith(op: FloatArith, a: u64, b: u64) -> u64 {
    let (x, y) = (f64::from_bits(a), f64::from_bits(b));
    let r = match op {
        FloatArith::Add => x + y,
        FloatArith::Sub => x - y,
        FloatArith::Mul => x * y,
        FloatArith::Div => x / y,
    };
    r.to_bits()
}

fn float_test(op: FloatTest, a: u64, b: u64) -> bool {
    let (x, y) = (f64::from_bits(a), f64::from_bits(b));
    match op {
        FloatTest::Eq => x == y,
        FloatTest::Ne => x != y,
        FloatTest::Lt => x < y,
        FloatTest::Gt => x > y,
        FloatTest::Le => x <= y,
        FloatTest::Ge => x >= y,
    }
}

#[test]
fn type_error_stops_the_program_before_any_output() {
    let program = vec![
        list(vec![id("print"), int_lit(1)]),
        list(vec![id("print"), list(vec![id("+"), int_lit(1), text("a")])]),
    ];
    let mut out: Vec<Value> = Vec::new();
    let e = check_and_run(&program, u64::MAX, &mut out, &float_arith, &float_test).unwrap_err();
    assert_eq!(e.message, "'+' operands have different types: 'int' vs 'str'");
    assert!(out.is_empty());
}

#[test]
fn well_typed_program_runs_and_prints() {
    let program = vec![
        list(vec![id("let"), id("x"), ty("int"), int_lit(3)]),
        list(vec![id("print"), list(vec![id("*"), id("x"), id("x")])]),
    ];
    let mut out: Vec<Value> = Vec::new();
    assert!(check_and_run(&program, u64::MAX, &mut out, &float_arith, &float_test).is_ok());
    assert_eq!(out.len(), 1);
    assert!(matches!(out[0], Value::Int(9)));
}

#[test]
fn runtime_fault_of_a_well_typed_program() {
    let program = vec![list(vec![id("print"), list(vec![id("/"), int_lit(5), int_lit(0)])])];
    let mut out: Vec<Value> = Vec::new();
    let e = check_and_run(&program, u64::MAX, &mut out, &float_arith, &float_test).unwrap_err();
    assert_eq!(e.message, "division by zero");
}

#[test]
fn a_function_body_reads_only_its_own_variables() {
    let program = vec![
        list(vec![id("let"), id("x"), ty("int"), int_lit(1)]),
        list(vec![id("declare"), id("f"), list(vec![]), ty("int")]),
        list(vec![id("defun"), id("f"), list(vec![]), id("x")]),
        list(vec![id("print"), list(vec![id("+"), list(vec![id("f")]), int_lit(1)])]),
    ];
    let mut out: Vec<Value> = Vec::new();
    let e = check_and_run(&program, u64::MAX, &mut out, &float_arith, &float_test).unwrap_err();
    assert_eq!(e.message, "undefined variable 'x'");
    assert!(out.is_empty());
}

#[test]
fn a_let_cannot_give_a_visible_variable_another_type() {
    let program = vec![
        list(vec![id("let"), id("x"), ty("int"), int_lit(1)]),
        list(vec![id("print"), id("x")]),
        list(vec![id("let"), id("x"), ty("str"), text("s")]),
    ];
    let mut out: Vec<Value> = Vec::new();
    let e = check_and_run(&program, u64::MAX, &mut out, &float_arith, &float_test).unwrap_err();
    assert_eq!(e.message, "let 'x': variable already has type 'int'");
    assert!(out.is_empty());
}

#[test]
fn functions_may_type_a_parameter_name_differently() {
    let program = vec![
        list(vec![id("declare"), id("f"), list(vec![ty("int")]), ty("int")]),
        list(vec![id("defun"), id("f"), list(vec![id("n")]), list(vec![id("+"), id("n"), int_lit(1)])]),
        list(vec![id("declare"), id("g"), list(vec![ty("str")]), ty("int")]),
        list(vec![id("defun"), id("g"), list(vec![id("n")]), list(vec![id("length"), id("n")])]),
        list(vec![id("print"), list(vec![id("+"), list(vec![id("f"), int_lit(1)]), list(vec![id("g"), text("ab")])])]),
    ];
    let mut out: Vec<Value> = Vec::new();
    assert!(check_and_run(&program, u64::MAX, &mut out, &float_arith, &float_test).is_ok());
    assert_eq!(out.len(), 1);
    assert!(matches!(out[0], Value::Int(4)));
}

#[test]
fn a_let_in_a_branch_is_not_seen_after_it() {
    let program = vec![
        list(vec![id("if"), Expr::Bool(false, at()), list(vec![id("let"), id("y"), ty("int"), int_lit(1)]), list(vec![id("print"), int_lit(0)])]),
        list(vec![id("print"), id("y")]),
    ];
    let mut out: Vec<Value> = Vec::new();
    let e = check_and_run(&program, u64::MAX, &mut out, &float_arith, &float_test).unwrap_err();
    assert_eq!(e.message, "undefined variable 'y'");
    assert!(out.is_empty());
}

#[test]
fn a_let_in_a_loop_body_is_seen_later_in_the_body_only() {
    let body_reads = vec![
        list(vec![id("let"), id("n"), ty("int"), int_lit(3)]),
        list(vec![id("let"), id("go"), ty("bool"), Expr::Bool(true, at())]),
        list(vec![id("while"), id("go"),
            list(vec![id("let"), id("y"), ty("int"), int_lit(7)]),
            list(vec![id("print"), list(vec![id("+"), id("y"), id("n")])]),
            list(vec![id("assign"), id("go"), Expr::Bool(false, at())])]),
    ];
    let mut out: Vec<Value> = Vec::new();
    assert!(check_and_run(&body_reads, u64::MAX, &mut out, &float_arith, &float_test).is_ok());
    assert_eq!(out.len(), 1);
    assert!(matches!(out[0], Value::Int(10)));
    let after_reads = vec![
        list(vec![id("while"), Expr::Bool(false, at()), list(vec![id("let"), id("y"), ty("int"), int_lit(7)])]),
        list(vec![id("print"), id("y")]),
    ];
    let mut out: Vec<Value> = Vec::new();
    let e = check_and_run(&after_reads, u64::MAX, &mut out, &float_arith, &float_test).unwrap_err();
    assert_eq!(e.message, "undefined variable 'y'");
}

#[test]
fn functions_may_type_a_local_name_differently() {
    let program = vec![
        list(vec![id("declare"), id("f"), list(vec![]), ty("void")]),
        list(vec![id("defun"), id("f"), list(vec![]), list(vec![id("let"), id("x"), ty("int"), int_lit(5)])]),
        list(vec![id("declare"), id("h"), list(vec![]), ty("void")]),
        list(vec![id("defun"), id("h"), list(vec![]), list(vec![id("let"), id("x"), ty("str"), text("a")])]),
        list(vec![id("f")]),
        list(vec![id("h")]),
        list(vec![id("print"), list(vec![id("concat"), text("b"), text("c")])]),
    ];
    let mut out: Vec<Value> = Vec::new();
    assert!(check_and_run(&program, u64::MAX, &mut out, &float_arith, &float_test).is_ok());
    assert_eq!(out.len(), 1);
    assert!(matches!(&out[0], Value::Str(s) if s == "bc"));
}

#[test]
fn a_variable_may_be_declared_again_with_its_type() {
    let program = vec![
        list(vec![id("let"), id("x"), ty("int"), int_lit(1)]),
        list(vec![id("print"), list(vec![id("+"), id("x"), int_lit(1)])]),
        list(vec![id("let"), id("x"), ty("int"), int_lit(5)]),
        list(vec![id("print"), id("x")]),
    ];
    let mut out: Vec<Value> = Vec::new();
    assert!(check_and_run(&program, u64::MAX, &mut out, &float_arith, &float_test).is_ok());
    assert_eq!(out.len(), 2);
    assert!(matches!(out[0], Value::Int(2)));
    assert!(matches!(out[1], Value::Int(5)));
}

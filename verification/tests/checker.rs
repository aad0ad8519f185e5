use best::ast::Expr;
use best::env::TypeEnv;
use best::error::{BestError, Loc};
use best::table::Table;
use best::typecheck::{check_expr, collect_signatures, parse_param_names, parse_single_type, parse_type_list, require_id, require_type, typecheck};
use best::types::Type;

fn at(line: i32, col: i32) -> Loc {
    Loc { line, col }
}

fn int_lit(n: i64) -> Expr {
    Expr::Int(n, at(1, 1))
}

fn flt(x: f64) -> Expr {
    Expr::Float(x.to_bits(), at(1, 1))
}

fn boolean(b: bool) -> Expr {
    Expr::Bool(b, at(1, 1))
}

fn text(s: &str) -> Expr {
    Expr::Str(s.to_string(), at(1, 1))
}

fn id(s: &str) -> Expr {
    Expr::Id(s.to_string(), at(1, 1))
}

fn ty(s: &str) -> Expr {
    Expr::TypeName(s.to_string(), at(1, 1))
}

fn list(items: Vec<Expr>) -> Expr {
    Expr::List(items, at(1, 1))
}

fn list_at(items: Vec<Expr>, loc: Loc) -> Expr {
    Expr::List(items, loc)
}

fn check_alone(e: &Expr) -> Result<Type, BestError> {
    let mut env = TypeEnv::new(Table::new());
    check_expr(e, &mut env, None)
}

fn message(r: Result<(), BestError>) -> String {
    r.unwrap_err().message
}

fn factorial_program() -> Vec<Expr> {
    vec![
        list(vec![id("declare"), id("factorial"), list(vec![ty("int")]), ty("int")]),
        list(vec![
            id("defun"),
            id("factorial"),
            list(vec![id("n")]),
            list(vec![
                id("if"),
                list(vec![id("=="), id("n"), int_lit(0)]),
                int_lit(1),
                list(vec![id("*"), id("n"), list(vec![id("factorial"), list(vec![id("-"), id("n"), int_lit(1)])])]),
            ]),
        ]),
        list(vec![id("print"), list(vec![id("factorial"), int_lit(10)])]),
    ]
}

#[test]
fn factorial_program_type_checks() {
    assert!(typecheck(&factorial_program()).is_ok());
}

#[test]
fn forward_calls_and_mutual_recursion_type_check() {
    // even/odd defined after their first use, each calling the other
    let program = vec![
        list(vec![id("print"), list(vec![id("even"), int_lit(4)])]),
        list(vec![id("declare"), id("even"), list(vec![ty("int")]), ty("bool")]),
        list(vec![
            id("defun"),
            id("even"),
            list(vec![id("n")]),
            list(vec![id("if"), list(vec![id("=="), id("n"), int_lit(0)]), boolean(true), list(vec![id("odd"), list(vec![id("-"), id("n"), int_lit(1)])])]),
        ]),
        list(vec![id("declare"), id("odd"), list(vec![ty("int")]), ty("bool")]),
        list(vec![
            id("defun"),
            id("odd"),
            list(vec![id("n")]),
            list(vec![id("if"), list(vec![id("=="), id("n"), int_lit(0)]), boolean(false), list(vec![id("even"), list(vec![id("-"), id("n"), int_lit(1)])])]),
        ]),
    ];
    assert!(typecheck(&program).is_ok());
}

#[test]
fn literal_and_operator_types() {
    assert_eq!(check_alone(&int_lit(1)).unwrap(), Type::Int);
    assert_eq!(check_alone(&flt(1.5)).unwrap(), Type::Float);
    assert_eq!(check_alone(&boolean(true)).unwrap(), Type::Bool);
    assert_eq!(check_alone(&text("a")).unwrap(), Type::Str);
    assert_eq!(check_alone(&list(vec![id("+"), flt(1.0), flt(2.0)])).unwrap(), Type::Float);
    assert_eq!(check_alone(&list(vec![id("<="), int_lit(1), int_lit(2)])).unwrap(), Type::Bool);
    assert_eq!(check_alone(&list(vec![id("=="), text("a"), text("b")])).unwrap(), Type::Bool);
    assert_eq!(check_alone(&list(vec![id("and"), boolean(true), boolean(false)])).unwrap(), Type::Bool);
    assert_eq!(check_alone(&list(vec![id("concat"), text("a"), text("b")])).unwrap(), Type::Str);
    assert_eq!(check_alone(&list(vec![id("length"), text("abc")])).unwrap(), Type::Int);
    assert_eq!(check_alone(&list(vec![id("print"), int_lit(3)])).unwrap(), Type::Void);
    assert_eq!(check_alone(&list(vec![id("if"), boolean(true), int_lit(1), int_lit(2)])).unwrap(), Type::Int);
}

#[test]
fn let_then_use_in_the_same_scope() {
    let mut env = TypeEnv::new(Table::new());
    assert_eq!(check_expr(&list(vec![id("let"), id("x"), ty("int"), int_lit(5)]), &mut env, None).unwrap(), Type::Void);
    assert_eq!(check_expr(&list(vec![id("+"), id("x"), int_lit(1)]), &mut env, None).unwrap(), Type::Int);
    assert_eq!(check_expr(&list(vec![id("assign"), id("x"), int_lit(7)]), &mut env, None).unwrap(), Type::Void);
}

#[test]
fn expression_errors_carry_their_messages() {
    let cases: Vec<(Expr, &str)> = vec![
        (list(vec![id("let"), id("x"), ty("int"), text("a")]), "let 'x': value type 'str' does not match declared type 'int'"),
        (list(vec![id("let"), id("x"), ty("int")]), "let expects: (let name type value)"),
        (list(vec![id("let"), int_lit(1), ty("int"), int_lit(1)]), "let: variable name must be an identifier"),
        (list(vec![id("let"), id("x"), id("int"), int_lit(1)]), "let: type must be a type name"),
        (list(vec![id("let"), id("x"), ty("integer"), int_lit(1)]), "unknown type 'integer'"),
        (list(vec![id("assign"), id("y"), int_lit(1)]), "undefined variable 'y'"),
        (list(vec![id("if"), int_lit(1), int_lit(2), int_lit(3)]), "if condition must be bool, got 'int'"),
        (list(vec![id("if"), boolean(true), int_lit(1), text("a")]), "if branches have different types: 'int' vs 'str'"),
        (list(vec![id("if"), boolean(true), int_lit(1)]), "if expects: (if cond then else)"),
        (list(vec![id("while"), int_lit(1), int_lit(2)]), "while condition must be bool, got 'int'"),
        (list(vec![id("while")]), "while expects: (while cond body...)"),
        (list(vec![id("print"), list(vec![id("let"), id("x"), ty("int"), int_lit(1)])]), "cannot print a void value"),
        (list(vec![id("print"), int_lit(1), int_lit(2)]), "print expects exactly one argument"),
        (list(vec![id("+"), int_lit(1), flt(2.0)]), "'+' operands have different types: 'int' vs 'float'"),
        (list(vec![id("-"), text("a"), text("b")]), "'-' requires numeric operands, got 'str'"),
        (list(vec![id("*"), int_lit(1)]), "'*' expects exactly two arguments"),
        (list(vec![id("!="), int_lit(1), boolean(true)]), "'!=' operands have different types: 'int' vs 'bool'"),
        (list(vec![id("<"), boolean(true), boolean(false)]), "'<' requires numeric operands, got 'bool'"),
        (list(vec![id("and"), int_lit(1), boolean(true)]), "'and' left operand must be bool, got 'int'"),
        (list(vec![id("or"), boolean(true), text("x")]), "'or' right operand must be bool, got 'str'"),
        (list(vec![id("not"), int_lit(1)]), "not requires bool, got 'int'"),
        (list(vec![id("not")]), "not expects exactly one argument"),
        (list(vec![id("concat"), int_lit(1), text("a")]), "concat left operand must be str, got 'int'"),
        (list(vec![id("concat"), text("a"), int_lit(1)]), "concat right operand must be str, got 'int'"),
        (list(vec![id("length"), int_lit(1)]), "length requires str, got 'int'"),
        (list(vec![id("defun"), id("f"), list(vec![]), int_lit(1)]), "'defun' is only allowed at top level"),
        (list(vec![id("declare"), id("f"), list(vec![]), ty("int")]), "'declare' is only allowed at top level"),
        (list(vec![id("foo"), int_lit(1)]), "undefined function 'foo'"),
        (list(vec![]), "empty list is not a valid expression"),
        (list(vec![int_lit(1), int_lit(2)]), "list head must be an identifier"),
        (ty("int"), "type name used in expression position"),
        (id("nothing"), "undefined variable 'nothing'"),
    ];
    for (e, expected) in cases {
        assert_eq!(check_alone(&e).unwrap_err().message, expected);
    }
}

#[test]
fn error_positions_point_at_the_offending_node() {
    let value = Expr::Str("a".to_string(), at(2, 14));
    let e = check_alone(&list_at(vec![id("let"), id("x"), ty("int"), value], at(2, 1))).unwrap_err();
    assert_eq!(e.loc, Some(at(2, 14)));
    let e = check_alone(&list_at(vec![id("if"), boolean(true), int_lit(1), text("a")], at(7, 3))).unwrap_err();
    assert_eq!(e.describe(), "error at line 7, column 3: if branches have different types: 'int' vs 'str'");
}

#[test]
fn call_arguments_are_checked_in_number_and_type() {
    let decl = list(vec![id("declare"), id("f"), list(vec![ty("int"), ty("str")]), ty("int")]);
    let def = list(vec![id("defun"), id("f"), list(vec![id("a"), id("b")]), id("a")]);
    let too_many = vec![decl.duplicate(), def.duplicate(), list(vec![id("f"), int_lit(1), text("s"), int_lit(3)])];
    assert_eq!(message(typecheck(&too_many)), "function 'f' expects 2 argument(s), got 3");
    let wrong = vec![decl.duplicate(), def.duplicate(), list(vec![id("f"), int_lit(1), int_lit(2)])];
    assert_eq!(message(typecheck(&wrong)), "function 'f' argument 2: expected 'str', got 'int'");
    let right = vec![decl, def, list(vec![id("print"), list(vec![id("f"), int_lit(1), text("s")])])];
    assert!(typecheck(&right).is_ok());
}

#[test]
fn declare_must_be_immediately_followed_by_its_defun() {
    let decl = list_at(vec![id("declare"), id("f"), list(vec![ty("int")]), ty("int")], at(1, 1));
    let def_f = list_at(vec![id("defun"), id("f"), list(vec![id("n")]), id("n")], at(2, 1));
    let interrupted = vec![decl.duplicate(), list(vec![id("print"), int_lit(1)]), def_f.duplicate()];
    assert_eq!(message(typecheck(&interrupted)), "declare for 'f' must be immediately followed by defun");
    let unfinished = vec![decl.duplicate()];
    let e = typecheck(&unfinished).unwrap_err();
    assert_eq!(e.describe(), "error at line 1, column 1: declare for 'f' has no corresponding defun");
    let orphan = vec![def_f.duplicate()];
    assert_eq!(message(typecheck(&orphan)), "defun 'f' has no preceding declare");
    let def_g = list(vec![id("defun"), id("g"), list(vec![id("n")]), id("n")]);
    assert_eq!(message(typecheck(&vec![decl.duplicate(), def_g])), "declare/defun name mismatch: 'f' vs 'g'");
    let def_two = list(vec![id("defun"), id("f"), list(vec![id("a"), id("b")]), id("a")]);
    assert_eq!(message(typecheck(&vec![decl.duplicate(), def_two])), "defun 'f': declared 1 params but defined 2");
    let def_str = list(vec![id("defun"), id("f"), list(vec![id("n")]), text("s")]);
    assert_eq!(message(typecheck(&vec![decl.duplicate(), def_str])), "function 'f' body has type 'str' but declared return type 'int'");
    let twice = vec![decl.duplicate(), decl.duplicate(), def_f.duplicate()];
    assert_eq!(message(typecheck(&twice)), "declare for 'f' must be immediately followed by defun");
}

#[test]
fn malformed_top_level_forms_are_reported() {
    let short = vec![list(vec![id("declare"), id("f")])];
    assert_eq!(message(typecheck(&short)), "declare expects: (declare name (param-types...) return-type)");
    let bad_name = vec![list(vec![id("declare"), int_lit(1), list(vec![]), ty("int")])];
    assert_eq!(message(typecheck(&bad_name)), "declare: name must be an identifier");
    let decl = list(vec![id("declare"), id("f"), list(vec![]), ty("int")]);
    let bad_defun = vec![decl.duplicate(), list(vec![id("defun"), id("f"), list(vec![])])];
    assert_eq!(message(typecheck(&bad_defun)), "defun expects: (defun name (params...) body)");
    let bad_param = vec![decl, list(vec![id("defun"), id("f"), list(vec![int_lit(1)]), int_lit(1)])];
    assert_eq!(message(typecheck(&bad_param)), "parameter must be an identifier");
}

#[test]
fn collected_signatures_keep_the_last_declaration() {
    let program = vec![
        list(vec![id("declare"), id("f"), list(vec![ty("int")]), ty("int")]),
        list(vec![id("declare"), id("f"), list(vec![ty("str"), ty("bool")]), ty("float")]),
    ];
    let sigs = collect_signatures(&program).unwrap();
    let (params, ret) = sigs.get("f").unwrap();
    assert_eq!(params, &vec![Type::Str, Type::Bool]);
    assert_eq!(*ret, Type::Float);
}

#[test]
fn signature_parts_are_read_from_their_nodes() {
    assert_eq!(parse_single_type(&ty("bool")).unwrap(), Type::Bool);
    assert_eq!(parse_single_type(&int_lit(1)).unwrap_err().message, "expected a type name");
    assert_eq!(parse_type_list(&list(vec![ty("int"), ty("void")])).unwrap(), vec![Type::Int, Type::Void]);
    assert_eq!(parse_type_list(&ty("int")).unwrap_err().message, "expected a list of types");
    assert_eq!(parse_param_names(&list(vec![id("a"), id("b")])).unwrap(), vec!["a".to_string(), "b".to_string()]);
    assert_eq!(parse_param_names(&id("a")).unwrap_err().message, "expected parameter list");
    assert_eq!(require_id(&id("x"), "ctx").unwrap(), "x");
    assert_eq!(require_id(&int_lit(1), "ctx").unwrap_err().message, "ctx must be an identifier");
    assert_eq!(require_type(&ty("str"), "ctx").unwrap(), Type::Str);
    assert_eq!(require_type(&id("str"), "ctx").unwrap_err().message, "ctx must be a type name");
}

#[test]
fn assign_keeps_the_variable_type() {
    let mut env = TypeEnv::new(Table::new());
    check_expr(&list(vec![id("let"), id("x"), ty("int"), int_lit(1)]), &mut env, None).unwrap();
    let e = check_expr(&list(vec![id("assign"), id("x"), text("a")]), &mut env, None).unwrap_err();
    assert_eq!(e.message, "assign 'x': value type 'str' does not match variable type 'int'");
    let e = check_expr(&list(vec![id("assign"), id("x")]), &mut env, None).unwrap_err();
    assert_eq!(e.message, "assign expects: (assign name value)");
}

#[test]
fn comparing_two_void_values_is_a_type_error() {
    let program = vec![list(vec![
        id("print"),
        list(vec![id("=="), list(vec![id("print"), int_lit(1)]), list(vec![id("print"), int_lit(2)])]),
    ])];
    assert_eq!(message(typecheck(&program)), "'==' compares void values");
    let e = check_alone(&list(vec![id("!="), list(vec![id("print"), int_lit(1)]), list(vec![id("print"), int_lit(2)])]));
    assert_eq!(e.unwrap_err().message, "'!=' compares void values");
}

#[test]
fn while_needs_a_body() {
    assert_eq!(check_alone(&list(vec![id("while"), boolean(false)])).unwrap_err().message, "while expects: (while cond body...)");
    assert_eq!(check_alone(&list(vec![id("while"), boolean(false), int_lit(1)])).unwrap(), Type::Void);
}

#[test]
fn failed_checks_leave_the_bindings_alone() {
    let mut env = TypeEnv::new(Table::new());
    env.declare_var("x", Type::Int);
    let e = check_expr(&list(vec![id("assign"), id("x"), text("a")]), &mut env, None).unwrap_err();
    assert_eq!(e.message, "assign 'x': value type 'str' does not match variable type 'int'");
    assert_eq!(env.lookup_var("x", &at(1, 1)).unwrap(), Type::Int);
    let e = check_expr(&list(vec![id("let"), id("y"), ty("int"), boolean(true)]), &mut env, None).unwrap_err();
    assert_eq!(e.message, "let 'y': value type 'bool' does not match declared type 'int'");
    assert!(env.lookup_var("y", &at(1, 1)).is_err());
    for (e, expected) in [
        (list(vec![]), "empty list is not a valid expression"),
        (list(vec![int_lit(1), int_lit(2)]), "list head must be an identifier"),
        (ty("int"), "type name used in expression position"),
        (id("y"), "undefined variable 'y'"),
    ] {
        let err = check_expr(&e, &mut env, None).unwrap_err();
        assert_eq!(err.message, expected);
        assert_eq!(err.loc, Some(at(1, 1)));
    }
    assert_eq!(env.lookup_var("x", &at(1, 1)).unwrap(), Type::Int);
}

#[test]
fn literals_type_in_an_environment_without_scopes() {
    let mut env = TypeEnv::new(Table::new());
    env.pop_frame();
    assert_eq!(check_expr(&int_lit(3), &mut env, None).unwrap(), Type::Int);
    assert_eq!(check_expr(&flt(1.0), &mut env, None).unwrap(), Type::Float);
    assert_eq!(check_expr(&boolean(true), &mut env, None).unwrap(), Type::Bool);
    assert_eq!(check_expr(&text("s"), &mut env, None).unwrap(), Type::Str);
    assert_eq!(check_expr(&id("x"), &mut env, None).unwrap_err().message, "undefined variable 'x'");
}

#[test]
fn every_type_error_has_a_position() {
    let programs = vec![
        vec![list(vec![id("declare"), id("f")])],
        vec![list(vec![id("declare"), id("f"), list(vec![]), ty("int")])],
        vec![list(vec![id("print"), id("nothing")])],
        vec![list(vec![id("while"), boolean(true)])],
    ];
    for p in programs {
        assert!(typecheck(&p).unwrap_err().loc.is_some());
    }
}

#[test]
fn a_failed_check_changes_only_what_its_lets_declare() {
    let mut env = TypeEnv::new(Table::new());
    env.declare_var("x", Type::Int);
    let expr = list(vec![
        id("=="),
        list(vec![id("let"), id("y"), ty("str"), text("a")]),
        list(vec![id("let"), id("z"), ty("int"), int_lit(1)]),
    ]);
    let e = check_expr(&expr, &mut env, None).unwrap_err();
    assert_eq!(e.message, "'==' compares void values");
    assert_eq!(env.lookup_var("x", &at(1, 1)).unwrap(), Type::Int);
    assert_eq!(env.lookup_var("y", &at(1, 1)).unwrap(), Type::Str);
    assert_eq!(env.lookup_var("z", &at(1, 1)).unwrap(), Type::Int);
}

#[test]
fn what_a_branch_declares_is_dropped_after_it() {
    let mut env = TypeEnv::new(Table::new());
    let expr = list(vec![
        id("if"),
        boolean(true),
        list(vec![id("let"), id("y"), ty("str"), text("a")]),
        list(vec![id("let"), id("y"), ty("int"), int_lit(1)]),
    ]);
    assert_eq!(check_expr(&expr, &mut env, None).unwrap(), Type::Void);
    assert!(env.lookup_var("y", &at(1, 1)).is_err());
    let bad = list(vec![
        id("if"),
        boolean(true),
        list(vec![id("let"), id("y"), ty("int"), int_lit(1)]),
        list(vec![id("print"), id("y")]),
    ]);
    assert_eq!(check_expr(&bad, &mut env, None).unwrap_err().message, "undefined variable 'y'");
}

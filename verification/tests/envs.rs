use best::env::{EvalEnv, TypeEnv};
use best::error::Loc;
use best::eval::Value;
use best::table::Table;
use best::types::Type;

fn at() -> Loc {
    Loc { line: 1, col: 1 }
}

fn int_of(v: Value) -> i64 {
    match v {
        Value::Int(n) => n,
        other => panic!("expected an int, got {:?}", other),
    }
}

#[test]
fn type_env_reads_back_a_declared_variable() {
    let mut env = TypeEnv::new(Table::new());
    env.declare_var("x", Type::Int);
    assert_eq!(env.lookup_var("x", &at()).unwrap(), Type::Int);
    env.declare_var("x", Type::Str);
    assert_eq!(env.lookup_var("x", &at()).unwrap(), Type::Str);
}

#[test]
fn type_env_inner_scope_hides_outer_and_pop_restores() {
    let mut env = TypeEnv::new(Table::new());
    env.declare_var("x", Type::Int);
    env.push_frame();
    assert_eq!(env.lookup_var("x", &at()).unwrap(), Type::Int);
    env.declare_var("x", Type::Bool);
    assert_eq!(env.lookup_var("x", &at()).unwrap(), Type::Bool);
    env.pop_frame();
    assert_eq!(env.lookup_var("x", &at()).unwrap(), Type::Int);
}

#[test]
fn type_env_unknown_variable_is_an_error() {
    let env = TypeEnv::new(Table::new());
    let loc = Loc { line: 4, col: 7 };
    let e = env.lookup_var("missing", &loc).unwrap_err();
    assert_eq!(e.describe(), "error at line 4, column 7: undefined variable 'missing'");
}

#[test]
fn type_env_looks_up_signatures() {
    let mut funs: Table<(Vec<Type>, Type)> = Table::new();
    funs.insert("add", (vec![Type::Int, Type::Int], Type::Int));
    let env = TypeEnv::new(funs);
    let (params, ret) = env.lookup_fun("add", &at()).unwrap();
    assert_eq!(params, vec![Type::Int, Type::Int]);
    assert_eq!(ret, Type::Int);
    let e = env.lookup_fun("sub", &Loc { line: 2, col: 3 }).unwrap_err();
    assert_eq!(e.message, "undefined function 'sub'");
    assert_eq!(e.loc, Some(Loc { line: 2, col: 3 }));
}

#[test]
fn eval_env_assign_changes_the_innermost_holder() {
    let mut env = EvalEnv::new();
    env.declare_var("x", Value::Int(1));
    let mut frame: Table<Value> = Table::new();
    frame.insert("y", Value::Int(2));
    env.push_frame(frame);
    env.assign_var("x", Value::Int(10), &at()).unwrap();
    env.assign_var("y", Value::Int(20), &at()).unwrap();
    assert_eq!(int_of(env.lookup_var("x", &at()).unwrap()), 10);
    assert_eq!(int_of(env.lookup_var("y", &at()).unwrap()), 20);
    env.pop_frame();
    assert_eq!(int_of(env.lookup_var("x", &at()).unwrap()), 10);
    let e = env.lookup_var("y", &Loc { line: 5, col: 6 }).unwrap_err();
    assert_eq!(e.describe(), "error at line 5, column 6: undefined variable 'y'");
}

#[test]
fn eval_env_assign_to_undeclared_variable_fails() {
    let mut env = EvalEnv::new();
    let e = env.assign_var("z", Value::Bool(true), &Loc { line: 9, col: 1 }).unwrap_err();
    assert_eq!(e.message, "undefined variable 'z'");
    assert_eq!(e.loc, Some(Loc { line: 9, col: 1 }));
    assert_eq!(env.call_depth, 0);
}

#[test]
fn table_keeps_the_last_value_of_a_key() {
    let mut t: Table<i64> = Table::new();
    assert!(!t.contains_key("a"));
    t.insert("a", 1);
    t.insert("b", 2);
    t.insert("a", 3);
    assert!(t.contains_key("a"));
    assert_eq!(t.get("a"), Some(&3));
    assert_eq!(t.get("b"), Some(&2));
    assert_eq!(t.get("c"), None);
}

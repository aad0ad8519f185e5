//! The evaluator, proved to compute what the evaluation rules give.
use vstd::prelude::*;

use vstd::string::{StringExecFns, StrSliceExecFns};

use crate::ast::{Expr, Node, lemma_nodes_of, nodes_of};
use crate::env::{
    lemma_frames_find, EvalEnv, Function, undefined_function_error, lemma_eval_env_fields,
    scope_of, functions_of,
};
use crate::error::{BestError, ErrorView, Loc};
use crate::semantics;
use crate::semantics::{
    EvalEnvView, FloatArith, FloatTest, FloatModel, MAX_DEPTH, State, Val, eval_node, eval_seq,
    eval_shaped, eval_while, eval_args, funs_shaped, limit_error, shaped_from, shaped_list, id_of,
    arith_values, equality_values, order_values, lemma_operator_chars, defun_params,
    defun_function, register_functions, run_forms, run_program, program_shaped, form_shaped,
    is_builtin, has_call, has_call_from, lemma_call_free_items,
};
use crate::typing::{has_let, has_let_from, lemma_let_free_items};
use crate::typecheck::{head_id, items, names_of};
use crate::table::Table;
use crate::text::{text_eq, format_i64, signed_decimal};
use crate::typing::quoted;

verus! {

/// A runtime value. A float is held as the bit pattern of its IEEE-754
/// double (`f64::to_bits`).
#[derive(Debug)]
pub enum Value {
    Int(i64),
    Float(u64),
    Bool(bool),
    Str(String),
    Void,
}

impl View for Value {
    type V = Val;

    open spec fn view(&self) -> Val {
        match self {
            Value::Int(n) => Val::Int(*n),
            Value::Float(b) => Val::Float(*b),
            Value::Bool(b) => Val::Bool(*b),
            Value::Str(s) => Val::Str(s@),
            Value::Void => Val::Void,
        }
    }
}

/// The mathematical values of a sequence of runtime values.
pub open spec fn vals_of(s: Seq<Value>) -> Seq<Val> {
    s.map_values(|v: Value| v@)
}

impl Value {
    /// A copy of this value.
    pub fn duplicate(&self) -> (r: Value)
        ensures
            r@ == self@,
    {
        match self {
            Value::Int(n) => Value::Int(*n),
            Value::Float(b) => Value::Float(*b),
            Value::Bool(b) => Value::Bool(*b),
            Value::Str(s) => Value::Str(s.clone()),
            Value::Void => Value::Void,
        }
    }
}

/// How a value that is not a float is printed: an int in decimal, a bool as
/// `true` or `false`, a string as itself, the void value as nothing.
pub open spec fn val_text(v: Val) -> Seq<char> {
    match v {
        Val::Int(n) => signed_decimal(n as int),
        Val::Bool(b) => if b { "true"@ } else { "false"@ },
        Val::Str(s) => s,
        _ => Seq::empty(),
    }
}

impl Value {
    /// The text `print` shows for this value; `float_text` gives the text of
    /// a float, from its bit pattern.
    pub fn describe<F>(&self, float_text: &F) -> (s: String)
        where F: Fn(u64) -> String,
        requires
            forall|b: u64| #[trigger] call_requires(*float_text, (b,)),
        ensures
            match self@ {
                Val::Float(b) => call_ensures(*float_text, (b,), s),
                v => s@ == val_text(v),
            },
    {
        match self {
            Value::Int(n) => format_i64(*n),
            Value::Float(b) => float_text(*b),
            Value::Bool(b) => if *b {
                String::from_str("true")
            } else {
                String::from_str("false")
            },
            Value::Str(s) => s.clone(),
            Value::Void => String::new(),
        }
    }
}

/* -- Float operations ------------------------------------------------------ */

/// What the given float operations compute, taken as functions.
pub open spec fn model_of<A, C>(arith: A, test: C) -> FloatModel
    where A: Fn(FloatArith, u64, u64) -> u64, C: Fn(FloatTest, u64, u64) -> bool,
{
    FloatModel {
        arith: |op: FloatArith, a: u64, b: u64| choose|r: u64| call_ensures(arith, (op, a, b), r),
        test: |op: FloatTest, a: u64, b: u64| choose|r: bool| call_ensures(test, (op, a, b), r),
    }
}

/// The float operations accept any operands and give one result for each.
pub open spec fn float_ops_ok<A, C>(arith: A, test: C) -> bool
    where A: Fn(FloatArith, u64, u64) -> u64, C: Fn(FloatTest, u64, u64) -> bool,
{
    &&& forall|op: FloatArith, a: u64, b: u64| #[trigger] call_requires(arith, (op, a, b))
    &&& forall|op: FloatTest, a: u64, b: u64| #[trigger] call_requires(test, (op, a, b))
    &&& forall|x: (FloatArith, u64, u64), r1: u64, r2: u64|
        #[trigger] call_ensures(arith, x, r1) && #[trigger] call_ensures(arith, x, r2) ==> r1 == r2
    &&& forall|x: (FloatTest, u64, u64), r1: bool, r2: bool|
        #[trigger] call_ensures(test, x, r1) && #[trigger] call_ensures(test, x, r2) ==> r1 == r2
}

fn float_arith<A, C>(arith: &A, test: &C, op: FloatArith, a: u64, b: u64) -> (r: u64)
    where A: Fn(FloatArith, u64, u64) -> u64, C: Fn(FloatTest, u64, u64) -> bool,
    requires
        float_ops_ok(*arith, *test),
    ensures
        r == (model_of(*arith, *test).arith)(op, a, b),
{
    let r = arith(op, a, b);
    proof {
        let c = choose|r: u64| call_ensures(*arith, (op, a, b), r);
        assert(call_ensures(*arith, (op, a, b), c));
    }
    r
}

fn float_test<A, C>(arith: &A, test: &C, op: FloatTest, a: u64, b: u64) -> (r: bool)
    where A: Fn(FloatArith, u64, u64) -> u64, C: Fn(FloatTest, u64, u64) -> bool,
    requires
        float_ops_ok(*arith, *test),
    ensures
        r == (model_of(*arith, *test).test)(op, a, b),
{
    let r = test(op, a, b);
    proof {
        let c = choose|r: bool| call_ensures(*test, (op, a, b), r);
        assert(call_ensures(*test, (op, a, b), c));
    }
    r
}

/* -- Evaluation ------------------------------------------------------------ */

/// The state made of an environment and the values printed so far.
pub open spec fn state_of(env: EvalEnvView, out: Seq<Value>) -> State {
    State { env, out: vals_of(out) }
}

/// A result as a mathematical value.
pub open spec fn result_of(r: Result<Value, BestError>) -> Result<Val, ErrorView> {
    match r {
        Ok(v) => Ok(v@),
        Err(e) => Err(e@),
    }
}

/// The environment keeps its number of scopes, its functions and its call depth.
pub open spec fn env_kept(before: EvalEnvView, after: EvalEnvView) -> bool {
    &&& after.frames.len() == before.frames.len()
    &&& after.funs == before.funs
    &&& after.depth == before.depth
}

/// An environment the evaluator can run in: at least one scope, and
/// well-shaped function bodies.
pub open spec fn ready(env: EvalEnvView) -> bool {
    env.frames.len() > 0 && funs_shaped(env.funs)
}

/// An environment in which `e` can be evaluated: a `let` needs a scope to
/// declare in, and a call needs well-shaped function bodies.
pub open spec fn ready_for(env: EvalEnvView, e: Node) -> bool {
    &&& env.frames.len() > 0 || !has_let(e)
    &&& funs_shaped(env.funs) || !has_call(e)
}

/// An environment in which the items `parts` can be evaluated.
pub open spec fn ready_for_items(env: EvalEnvView, parts: Seq<Node>) -> bool {
    &&& env.frames.len() > 0 || !has_let_from(parts, 0)
    &&& funs_shaped(env.funs) || !has_call_from(parts, 0)
}

fn limit_reached() -> (e: BestError)
    ensures
        e@ == limit_error(),
{
    BestError::new("evaluation limit reached")
}

fn quoted_message(op: &str, rest: &str) -> (m: String)
    ensures
        m@ == quoted(op@) + rest@,
{
    let mut m = String::from_str("'");
    m.append(op);
    m.append("'");
    m.append(rest);
    assert(m@ =~= quoted(op@) + rest@);
    m
}

/// The value of `expr`; `fuel` bounds the depth of nested evaluation and the
/// number of rounds of each loop. Printed values are appended to `out`.
pub fn eval_expr<A, C>(expr: &Expr, env: &mut EvalEnv, fuel: u64, out: &mut Vec<Value>, arith: &A, test: &C) -> (r: Result<Value, BestError>)
    where A: Fn(FloatArith, u64, u64) -> u64, C: Fn(FloatTest, u64, u64) -> bool,
    requires
        float_ops_ok(*arith, *test),
        eval_shaped(expr@),
        ready_for(old(env)@, expr@),
    ensures
        env_kept(old(env)@, final(env)@),
        (result_of(r), state_of(final(env)@, final(out)@))
            == eval_node(model_of(*arith, *test), fuel as nat, expr@, state_of(old(env)@, old(out)@)),
    decreases fuel, 0nat,
{
    if fuel == 0 {
        return Err(limit_reached());
    }
    let f = fuel - 1;
    match expr {
        Expr::Int(n, _) => Ok(Value::Int(*n)),
        Expr::Float(b, _) => Ok(Value::Float(*b)),
        Expr::Bool(b, _) => Ok(Value::Bool(*b)),
        Expr::Str(s, _) => Ok(Value::Str(s.clone())),
        Expr::TypeName(_, loc) => Err(BestError::at("type name in expression", loc)),
        Expr::Id(name, loc) => env.lookup_var(name.as_str(), loc),
        Expr::List(parts, loc) => {
            proof {
                lemma_nodes_of(parts@);
                lemma_let_free_items(nodes_of(parts@));
                lemma_call_free_items(nodes_of(parts@));
            }
            if parts.len() == 0 {
                return Err(BestError::at("empty list is not a valid expression", loc));
            }
            let op = match &parts[0] {
                Expr::Id(s, _) => s.as_str(),
                other => {
                    return Err(BestError::at("list head must be an identifier", other.loc()));
                },
            };
            eval_list(op, parts, loc, env, f, out, arith, test)
        },
    }
}

/// The name held by an identifier node.
fn id_of_expr(expr: &Expr) -> (s: &str)
    requires
        expr@ is Id,
    ensures
        s@ == id_of(expr@),
{
    match expr {
        Expr::Id(s, _) => s.as_str(),
        _ => "",
    }
}

fn eval_list<A, C>(op: &str, parts: &Vec<Expr>, loc: &Loc, env: &mut EvalEnv, fuel: u64, out: &mut Vec<Value>, arith: &A, test: &C) -> (r: Result<Value, BestError>)
    where A: Fn(FloatArith, u64, u64) -> u64, C: Fn(FloatTest, u64, u64) -> bool,
    requires
        float_ops_ok(*arith, *test),
        parts@.len() > 0,
        shaped_list(op@, nodes_of(parts@)),
        old(env)@.frames.len() > 0 || (op@ != "let"@ && !has_let_from(nodes_of(parts@), 0)),
        funs_shaped(old(env)@.funs) || (is_builtin(op@) && !has_call_from(nodes_of(parts@), 0)),
    ensures
        env_kept(old(env)@, final(env)@),
        (result_of(r), state_of(final(env)@, final(out)@))
            == semantics::eval_list(model_of(*arith, *test), fuel as nat, op@, nodes_of(parts@), *loc, state_of(old(env)@, old(out)@)),
    decreases fuel, parts@.len() + 4,
{
    proof {
        lemma_nodes_of(parts@);
        lemma_let_free_items(nodes_of(parts@));
        lemma_call_free_items(nodes_of(parts@));
    }
    if text_eq(op, "declare") {
        Ok(Value::Void)
    } else if text_eq(op, "let") {
        let name = id_of_expr(&parts[1]);
        let val = eval_expr(&parts[3], env, fuel, out, arith, test)?;
        env.declare_var(name, val);
        Ok(Value::Void)
    } else if text_eq(op, "assign") {
        let name = id_of_expr(&parts[1]);
        let val = eval_expr(&parts[2], env, fuel, out, arith, test)?;
        proof {
            lemma_frames_find(env@.frames, name@);
        }
        env.assign_var(name, val, parts[1].loc())?;
        Ok(Value::Void)
    } else if text_eq(op, "if") {
        let cond = eval_expr(&parts[1], env, fuel, out, arith, test)?;
        match cond {
            Value::Bool(true) => eval_expr(&parts[2], env, fuel, out, arith, test),
            Value::Bool(false) => eval_expr(&parts[3], env, fuel, out, arith, test),
            _ => Err(BestError::at("if condition must be bool", parts[1].loc())),
        }
    } else if text_eq(op, "while") {
        eval_while_loop(parts, env, fuel, out, arith, test)
    } else if text_eq(op, "print") {
        let val = eval_expr(&parts[1], env, fuel, out, arith, test)?;
        let ghost before = out@;
        let ghost v = val@;
        out.push(val);
        assert(vals_of(out@) =~= vals_of(before).push(v));
        Ok(Value::Void)
    } else if text_eq(op, "+") || text_eq(op, "-") || text_eq(op, "*") || text_eq(op, "/") {
        eval_arith(op, parts, loc, env, fuel, out, arith, test)
    } else if text_eq(op, "==") || text_eq(op, "!=") {
        eval_equality(op, parts, env, fuel, out, arith, test)
    } else if text_eq(op, "<") || text_eq(op, ">") || text_eq(op, "<=") || text_eq(op, ">=") {
        eval_order(op, parts, env, fuel, out, arith, test)
    } else if text_eq(op, "and") || text_eq(op, "or") {
        let a = eval_bool(&parts[1], env, fuel, out, arith, test, op)?;
        let b = eval_bool(&parts[2], env, fuel, out, arith, test, op)?;
        if text_eq(op, "and") {
            Ok(Value::Bool(a && b))
        } else {
            Ok(Value::Bool(a || b))
        }
    } else if text_eq(op, "not") {
        let a = eval_bool(&parts[1], env, fuel, out, arith, test, "not")?;
        Ok(Value::Bool(!a))
    } else if text_eq(op, "concat") {
        let a = eval_str(&parts[1], env, fuel, out, arith, test, "concat")?;
        let b = eval_str(&parts[2], env, fuel, out, arith, test, "concat")?;
        let mut c = a;
        c.append(b.as_str());
        Ok(Value::Str(c))
    } else if text_eq(op, "length") {
        let a = eval_str(&parts[1], env, fuel, out, arith, test, "length")?;
        let n = a.as_str().unicode_len();
        Ok(Value::Int(n as i64))
    } else {
        eval_call(op, parts, loc, env, fuel, out, arith, test)
    }
}

fn eval_while_loop<A, C>(parts: &Vec<Expr>, env: &mut EvalEnv, fuel: u64, out: &mut Vec<Value>, arith: &A, test: &C) -> (r: Result<Value, BestError>)
    where A: Fn(FloatArith, u64, u64) -> u64, C: Fn(FloatTest, u64, u64) -> bool,
    requires
        float_ops_ok(*arith, *test),
        parts@.len() >= 2,
        shaped_from(nodes_of(parts@), 1),
        ready_for_items(old(env)@, nodes_of(parts@)),
    ensures
        env_kept(old(env)@, final(env)@),
        (result_of(r), state_of(final(env)@, final(out)@))
            == eval_while(model_of(*arith, *test), fuel as nat, nodes_of(parts@), state_of(old(env)@, old(out)@)),
    decreases fuel, parts@.len() + 2,
{
    proof {
        lemma_nodes_of(parts@);
        lemma_let_free_items(nodes_of(parts@));
        lemma_call_free_items(nodes_of(parts@));
    }
    let ghost fm = model_of(*arith, *test);
    let ghost nodes = nodes_of(parts@);
    let ghost env0 = env@;
    let mut budget = fuel;
    loop
        invariant
            float_ops_ok(*arith, *test),
            fm == model_of(*arith, *test),
            nodes == nodes_of(parts@),
            parts@.len() >= 2,
            nodes.len() == parts@.len(),
            forall|j: int| 0 <= j < parts@.len() ==> #[trigger] nodes[j] == parts@[j]@,
            shaped_from(nodes, 1),
            budget <= fuel,
            env0 == old(env)@,
            env_kept(env0, env@),
            ready_for_items(env@, nodes),
            forall|jj: int| 0 <= jj < nodes.len() ==> (#[trigger] has_let(nodes[jj]) ==> has_let_from(nodes, 0)) && (has_call(nodes[jj]) ==> has_call_from(nodes, 0)),
            eval_while(fm, fuel as nat, nodes, state_of(old(env)@, old(out)@))
                == eval_while(fm, budget as nat, nodes, state_of(env@, out@)),
        decreases budget,
    {
        if budget == 0 {
            return Err(limit_reached());
        }
        proof {
            lemma_shaped_from(nodes, 1, 1);
        }
        proof {
            assert(nodes[1] == parts@[1]@);
            assert(has_let(nodes[1]) ==> has_let_from(nodes, 0));
            assert(has_call(nodes[1]) ==> has_call_from(nodes, 0));
        }
        let cond = eval_expr(&parts[1], env, budget, out, arith, test)?;
        match cond {
            Value::Bool(false) => {
                return Ok(Value::Void);
            },
            Value::Bool(true) => {},
            _ => {
                return Err(BestError::at("while condition must be bool", parts[1].loc()));
            },
        }
        let ghost st1 = state_of(env@, out@);
        let mut j: usize = 2;
        while j < parts.len()
            invariant
                float_ops_ok(*arith, *test),
                fm == model_of(*arith, *test),
                nodes == nodes_of(parts@),
                2 <= j <= parts@.len(),
                nodes.len() == parts@.len(),
                forall|k: int| 0 <= k < parts@.len() ==> #[trigger] nodes[k] == parts@[k]@,
                shaped_from(nodes, 1),
                0 < budget <= fuel,
                env0 == old(env)@,
                env_kept(env0, env@),
                ready_for_items(env@, nodes),
                forall|jj: int| 0 <= jj < nodes.len() ==> (#[trigger] has_let(nodes[jj]) ==> has_let_from(nodes, 0)) && (has_call(nodes[jj]) ==> has_call_from(nodes, 0)),
                eval_seq(fm, budget as nat, nodes, 2, st1) == eval_seq(fm, budget as nat, nodes, j as int, state_of(env@, out@)),
                eval_while(fm, fuel as nat, nodes, state_of(old(env)@, old(out)@)) == match eval_seq(fm, budget as nat, nodes, 2, st1) {
                    (Err(e), st2) => (Err::<Val, ErrorView>(e), st2),
                    (Ok(_), st2) => eval_while(fm, (budget - 1) as nat, nodes, st2),
                },
            decreases parts@.len() - j,
        {
            proof {
                lemma_shaped_from(nodes, 1, j as int);
            }
            proof {
                assert(nodes[j as int] == parts@[j as int]@);
                assert(has_let(nodes[j as int]) ==> has_let_from(nodes, 0));
                assert(has_call(nodes[j as int]) ==> has_call_from(nodes, 0));
            }
            let _ = eval_expr(&parts[j], env, budget, out, arith, test)?;
            j = j + 1;
        }
        budget = budget - 1;
    }
}

/// The result of an arithmetic operator on two values.
fn arith_result<A, C>(op: &str, lv: Value, rv: Value, loc: &Loc, arith: &A, test: &C) -> (r: Result<Value, BestError>)
    where A: Fn(FloatArith, u64, u64) -> u64, C: Fn(FloatTest, u64, u64) -> bool,
    requires
        float_ops_ok(*arith, *test),
        op@ == "+"@ || op@ == "-"@ || op@ == "*"@ || op@ == "/"@,
    ensures
        result_of(r) == arith_values(model_of(*arith, *test), op@, lv@, rv@, *loc),
{
    proof {
        lemma_operator_chars();
    }
    if text_eq(op, "/") {
        match (lv, rv) {
            (Value::Int(a), Value::Int(b)) => {
                if b == 0 {
                    return Err(BestError::at("division by zero", loc));
                }
                match a.checked_div(b) {
                    Some(q) => Ok(Value::Int(q)),
                    None => Err(BestError::new("attempt to divide with overflow")),
                }
            },
            (Value::Float(a), Value::Float(b)) => {
                if float_test(arith, test, FloatTest::Eq, b, 0u64) {
                    return Err(BestError::at("division by zero", loc));
                }
                Ok(Value::Float(float_arith(arith, test, FloatArith::Div, a, b)))
            },
            _ => Err(BestError::at("'/' requires numeric operands of the same type", loc)),
        }
    } else {
        match (lv, rv) {
            (Value::Int(a), Value::Int(b)) => {
                let (res, msg) = if text_eq(op, "+") {
                    (a.checked_add(b), "attempt to add with overflow")
                } else if text_eq(op, "-") {
                    (a.checked_sub(b), "attempt to subtract with overflow")
                } else {
                    (a.checked_mul(b), "attempt to multiply with overflow")
                };
                match res {
                    Some(v) => Ok(Value::Int(v)),
                    None => Err(BestError::new(msg)),
                }
            },
            (Value::Float(a), Value::Float(b)) => {
                let fop = if text_eq(op, "+") {
                    FloatArith::Add
                } else if text_eq(op, "-") {
                    FloatArith::Sub
                } else {
                    FloatArith::Mul
                };
                Ok(Value::Float(float_arith(arith, test, fop, a, b)))
            },
            _ => Err(BestError { message: quoted_message(op, " requires numeric operands"), loc: None }),
        }
    }
}

fn eval_arith<A, C>(op: &str, parts: &Vec<Expr>, loc: &Loc, env: &mut EvalEnv, fuel: u64, out: &mut Vec<Value>, arith: &A, test: &C) -> (r: Result<Value, BestError>)
    where A: Fn(FloatArith, u64, u64) -> u64, C: Fn(FloatTest, u64, u64) -> bool,
    requires
        float_ops_ok(*arith, *test),
        op@ == "+"@ || op@ == "-"@ || op@ == "*"@ || op@ == "/"@,
        parts@.len() >= 3,
        eval_shaped(parts@[1]@),
        eval_shaped(parts@[2]@),
        ready_for_items(old(env)@, nodes_of(parts@)),
    ensures
        env_kept(old(env)@, final(env)@),
        (result_of(r), state_of(final(env)@, final(out)@))
            == semantics::eval_arith(model_of(*arith, *test), fuel as nat, op@, nodes_of(parts@), *loc, state_of(old(env)@, old(out)@)),
    decreases fuel, parts@.len() + 2,
{
    proof {
        lemma_nodes_of(parts@);
        lemma_let_free_items(nodes_of(parts@));
        lemma_call_free_items(nodes_of(parts@));
        assert(nodes_of(parts@)[1] == parts@[1]@ && nodes_of(parts@)[2] == parts@[2]@);
    }
    let lv = eval_expr(&parts[1], env, fuel, out, arith, test)?;
    let rv = eval_expr(&parts[2], env, fuel, out, arith, test)?;
    arith_result(op, lv, rv, loc, arith, test)
}

/// The result of `==` or `!=` on two values.
fn equality_result<A, C>(op: &str, lv: Value, rv: Value, arith: &A, test: &C) -> (r: Result<Value, BestError>)
    where A: Fn(FloatArith, u64, u64) -> u64, C: Fn(FloatTest, u64, u64) -> bool,
    requires
        float_ops_ok(*arith, *test),
    ensures
        result_of(r) == equality_values(model_of(*arith, *test), op@, lv@, rv@),
{
    let eq = text_eq(op, "==");
    match (lv, rv) {
        (Value::Int(a), Value::Int(b)) => Ok(Value::Bool(if eq { a == b } else { a != b })),
        (Value::Float(a), Value::Float(b)) => {
            let t = if eq { FloatTest::Eq } else { FloatTest::Ne };
            Ok(Value::Bool(float_test(arith, test, t, a, b)))
        },
        (Value::Bool(a), Value::Bool(b)) => Ok(Value::Bool(if eq { a == b } else { a != b })),
        (Value::Str(a), Value::Str(b)) => Ok(Value::Bool(if eq { a == b } else { a != b })),
        _ => Err(BestError { message: quoted_message(op, " type mismatch"), loc: None }),
    }
}

fn eval_equality<A, C>(op: &str, parts: &Vec<Expr>, env: &mut EvalEnv, fuel: u64, out: &mut Vec<Value>, arith: &A, test: &C) -> (r: Result<Value, BestError>)
    where A: Fn(FloatArith, u64, u64) -> u64, C: Fn(FloatTest, u64, u64) -> bool,
    requires
        float_ops_ok(*arith, *test),
        parts@.len() >= 3,
        eval_shaped(parts@[1]@),
        eval_shaped(parts@[2]@),
        ready_for_items(old(env)@, nodes_of(parts@)),
    ensures
        env_kept(old(env)@, final(env)@),
        (result_of(r), state_of(final(env)@, final(out)@))
            == semantics::eval_equality(model_of(*arith, *test), fuel as nat, op@, nodes_of(parts@), state_of(old(env)@, old(out)@)),
    decreases fuel, parts@.len() + 2,
{
    proof {
        lemma_nodes_of(parts@);
        lemma_let_free_items(nodes_of(parts@));
        lemma_call_free_items(nodes_of(parts@));
        assert(nodes_of(parts@)[1] == parts@[1]@ && nodes_of(parts@)[2] == parts@[2]@);
    }
    let lv = eval_expr(&parts[1], env, fuel, out, arith, test)?;
    let rv = eval_expr(&parts[2], env, fuel, out, arith, test)?;
    equality_result(op, lv, rv, arith, test)
}

/// The result of `<`, `>`, `<=` or `>=` on two values.
fn order_result<A, C>(op: &str, lv: Value, rv: Value, arith: &A, test: &C) -> (r: Result<Value, BestError>)
    where A: Fn(FloatArith, u64, u64) -> u64, C: Fn(FloatTest, u64, u64) -> bool,
    requires
        float_ops_ok(*arith, *test),
    ensures
        result_of(r) == order_values(model_of(*arith, *test), op@, lv@, rv@),
{
    match (lv, rv) {
        (Value::Int(a), Value::Int(b)) => {
            let res = if text_eq(op, "<") {
                a < b
            } else if text_eq(op, ">") {
                a > b
            } else if text_eq(op, "<=") {
                a <= b
            } else {
                a >= b
            };
            Ok(Value::Bool(res))
        },
        (Value::Float(a), Value::Float(b)) => {
            let t = if text_eq(op, "<") {
                FloatTest::Lt
            } else if text_eq(op, ">") {
                FloatTest::Gt
            } else if text_eq(op, "<=") {
                FloatTest::Le
            } else {
                FloatTest::Ge
            };
            Ok(Value::Bool(float_test(arith, test, t, a, b)))
        },
        _ => Err(BestError { message: quoted_message(op, " requires numeric operands"), loc: None }),
    }
}

fn eval_order<A, C>(op: &str, parts: &Vec<Expr>, env: &mut EvalEnv, fuel: u64, out: &mut Vec<Value>, arith: &A, test: &C) -> (r: Result<Value, BestError>)
    where A: Fn(FloatArith, u64, u64) -> u64, C: Fn(FloatTest, u64, u64) -> bool,
    requires
        float_ops_ok(*arith, *test),
        parts@.len() >= 3,
        eval_shaped(parts@[1]@),
        eval_shaped(parts@[2]@),
        ready_for_items(old(env)@, nodes_of(parts@)),
    ensures
        env_kept(old(env)@, final(env)@),
        (result_of(r), state_of(final(env)@, final(out)@))
            == semantics::eval_order(model_of(*arith, *test), fuel as nat, op@, nodes_of(parts@), state_of(old(env)@, old(out)@)),
    decreases fuel, parts@.len() + 2,
{
    proof {
        lemma_nodes_of(parts@);
        lemma_let_free_items(nodes_of(parts@));
        lemma_call_free_items(nodes_of(parts@));
        assert(nodes_of(parts@)[1] == parts@[1]@ && nodes_of(parts@)[2] == parts@[2]@);
    }
    let lv = eval_expr(&parts[1], env, fuel, out, arith, test)?;
    let rv = eval_expr(&parts[2], env, fuel, out, arith, test)?;
    order_result(op, lv, rv, arith, test)
}

/// The value of `expr`, which must be a bool.
fn eval_bool<A, C>(expr: &Expr, env: &mut EvalEnv, fuel: u64, out: &mut Vec<Value>, arith: &A, test: &C, op: &str) -> (r: Result<bool, BestError>)
    where A: Fn(FloatArith, u64, u64) -> u64, C: Fn(FloatTest, u64, u64) -> bool,
    requires
        float_ops_ok(*arith, *test),
        eval_shaped(expr@),
        ready_for(old(env)@, expr@),
    ensures
        env_kept(old(env)@, final(env)@),
        (match r { Ok(b) => Ok::<bool, ErrorView>(b), Err(e) => Err(e@) }, state_of(final(env)@, final(out)@))
            == semantics::eval_bool(model_of(*arith, *test), fuel as nat, expr@, op@, state_of(old(env)@, old(out)@)),
    decreases fuel, 1nat,
{
    match eval_expr(expr, env, fuel, out, arith, test)? {
        Value::Bool(b) => Ok(b),
        _ => Err(BestError { message: quoted_message(op, " requires bool operands"), loc: Some(*expr.loc()) }),
    }
}

/// The value of `expr`, which must be a str.
fn eval_str<A, C>(expr: &Expr, env: &mut EvalEnv, fuel: u64, out: &mut Vec<Value>, arith: &A, test: &C, op: &str) -> (r: Result<String, BestError>)
    where A: Fn(FloatArith, u64, u64) -> u64, C: Fn(FloatTest, u64, u64) -> bool,
    requires
        float_ops_ok(*arith, *test),
        eval_shaped(expr@),
        ready_for(old(env)@, expr@),
    ensures
        env_kept(old(env)@, final(env)@),
        (match r { Ok(s) => Ok::<Seq<char>, ErrorView>(s@), Err(e) => Err(e@) }, state_of(final(env)@, final(out)@))
            == semantics::eval_str(model_of(*arith, *test), fuel as nat, expr@, op@, state_of(old(env)@, old(out)@)),
    decreases fuel, 1nat,
{
    match eval_expr(expr, env, fuel, out, arith, test)? {
        Value::Str(s) => Ok(s),
        _ => Err(BestError { message: quoted_message(op, " requires str operands"), loc: Some(*expr.loc()) }),
    }
}

/// A call of the user function `name` with the arguments `parts[1..]`.
fn eval_call<A, C>(name: &str, parts: &Vec<Expr>, loc: &Loc, env: &mut EvalEnv, fuel: u64, out: &mut Vec<Value>, arith: &A, test: &C) -> (r: Result<Value, BestError>)
    where A: Fn(FloatArith, u64, u64) -> u64, C: Fn(FloatTest, u64, u64) -> bool,
    requires
        float_ops_ok(*arith, *test),
        parts@.len() > 0,
        shaped_from(nodes_of(parts@), 1),
        ready_for_items(old(env)@, nodes_of(parts@)),
        funs_shaped(old(env)@.funs),
    ensures
        env_kept(old(env)@, final(env)@),
        (result_of(r), state_of(final(env)@, final(out)@))
            == semantics::eval_call(model_of(*arith, *test), fuel as nat, name@, nodes_of(parts@), *loc, state_of(old(env)@, old(out)@)),
    decreases fuel, parts@.len() + 2,
{
    proof {
        lemma_nodes_of(parts@);
        lemma_eval_env_fields(env);
        lemma_let_free_items(nodes_of(parts@));
        lemma_call_free_items(nodes_of(parts@));
    }
    let ghost fm = model_of(*arith, *test);
    let ghost nodes = nodes_of(parts@);
    let ghost env0 = env@;
    if env.call_depth >= MAX_DEPTH {
        let mut m = String::from_str("stack overflow calling ");
        m.append("'");
        m.append(name);
        m.append("'");
        assert(m@ =~= "stack overflow calling "@ + quoted(name@));
        return Err(BestError { message: m, loc: Some(*loc) });
    }
    let fun: Function = match env.funs.get(name) {
        Some(f) => f.duplicate(),
        None => {
            return Err(undefined_function_error(name, loc));
        },
    };
    assert(env0.funs.contains_key(name@));
    assert(fun@ == env0.funs[name@]);
    assert(eval_shaped(fun@.body));
    let ghost params = fun@.params;
    let mut frame: Table<Value> = Table::new();
    let mut k: usize = 0;
    assert(scope_of(frame@) =~= Map::<Seq<char>, Val>::empty());
    while k < fun.params.len() && k + 1 < parts.len()
        invariant
            float_ops_ok(*arith, *test),
            fm == model_of(*arith, *test),
            nodes == nodes_of(parts@),
            nodes.len() == parts@.len(),
            forall|j: int| 0 <= j < parts@.len() ==> #[trigger] nodes[j] == parts@[j]@,
            shaped_from(nodes, 1),
            params == fun@.params,
            params.len() == fun.params@.len(),
            forall|j: int| 0 <= j < fun.params@.len() ==> #[trigger] params[j] == fun.params@[j]@,
            k <= fun.params@.len(),
            k < parts@.len(),
            env0 == old(env)@,
            env0.depth < MAX_DEPTH,
            env0.funs.contains_key(name@),
            fun@ == env0.funs[name@],
            eval_shaped(fun@.body),
            env_kept(env0, env@),
            ready_for_items(env@, nodes),
            forall|jj: int| 0 <= jj < nodes.len() ==> (#[trigger] has_let(nodes[jj]) ==> has_let_from(nodes, 0)) && (has_call(nodes[jj]) ==> has_call_from(nodes, 0)),
            funs_shaped(env@.funs),
            eval_args(fm, fuel as nat, params, nodes, 0, Map::empty(), state_of(old(env)@, old(out)@))
                == eval_args(fm, fuel as nat, params, nodes, k as int, scope_of(frame@), state_of(env@, out@)),
        decreases fun.params@.len() - k,
    {
        proof {
            lemma_shaped_from(nodes, 1, k + 1);
        }
        let val = eval_expr(&parts[k + 1], env, fuel, out, arith, test)?;
        let ghost v = val@;
        let ghost before = frame@;
        frame.insert(fun.params[k].as_str(), val);
        assert(scope_of(frame@) =~= scope_of(before).insert(params[k as int], v));
        k = k + 1;
    }
    proof {
        lemma_eval_env_fields(env);
    }
    env.begin_call(frame);
    let result = eval_expr(&fun.body, env, fuel, out, arith, test);
    env.end_call();
    result
}

/* -- Programs ------------------------------------------------------------- */

/// An error among the first `k` parameters is the error of the whole list.
proof fn lemma_defun_params_prefix_error(items: Seq<Node>, k: int)
    requires
        0 <= k <= items.len(),
        defun_params(items.take(k)) is Err,
    ensures
        defun_params(items) == defun_params(items.take(k)),
    decreases items.len() - k,
{
    if k < items.len() {
        assert(items.take(k + 1).drop_last() =~= items.take(k));
        lemma_defun_params_prefix_error(items, k + 1);
    } else {
        assert(items.take(k) =~= items);
    }
}

/// Registers the function that the `defun` form with items `parts` defines.
fn register_fun(parts: &Vec<Expr>, loc: &Loc, env: &mut EvalEnv) -> (r: Result<(), BestError>)
    requires
        parts@.len() >= 4,
    ensures
        match defun_function(nodes_of(parts@)) {
            Ok((name, fun)) => r is Ok && final(env)@ == EvalEnvView { funs: old(env)@.funs.insert(name, fun), ..old(env)@ },
            Err(e) => (r matches Err(x) && x@ == e) && final(env)@ == old(env)@,
        },
{
    proof {
        lemma_nodes_of(parts@);
        lemma_let_free_items(nodes_of(parts@));
        lemma_call_free_items(nodes_of(parts@));
    }
    let name = match &parts[1] {
        Expr::Id(s, _) => s.clone(),
        other => {
            return Err(BestError::at("defun: name must be an identifier", other.loc()));
        },
    };
    let params = match &parts[2] {
        Expr::List(items, _) => {
            proof {
                lemma_nodes_of(items@);
            }
            let mut ps: Vec<String> = Vec::new();
            let mut i: usize = 0;
            assert(names_of(ps@) =~= Seq::<Seq<char>>::empty());
            assert(nodes_of(items@).take(0) =~= Seq::<Node>::empty());
            #[verifier::loop_isolation(false)]
            while i < items.len()
                invariant
                    i <= items@.len(),
                    defun_params(nodes_of(items@).take(i as int)) == Ok::<Seq<Seq<char>>, ErrorView>(names_of(ps@)),
                decreases items@.len() - i,
            {
                assert(nodes_of(items@).take(i + 1).drop_last() =~= nodes_of(items@).take(i as int));
                assert(nodes_of(items@).take(i + 1).last() == items@[i as int]@);
                match &items[i] {
                    Expr::Id(s, _) => {
                        let ghost before = ps@;
                        ps.push(s.clone());
                        assert(names_of(ps@) =~= names_of(before).push(s@));
                    },
                    other => {
                        proof {
                            assert(defun_params(nodes_of(items@).take(i + 1)) is Err);
                            lemma_defun_params_prefix_error(nodes_of(items@), (i + 1) as int);
                        }
                        return Err(BestError::at("defun: param must be an identifier", other.loc()));
                    },
                }
                i = i + 1;
            }
            assert(nodes_of(items@).take(i as int) =~= nodes_of(items@));
            ps
        },
        other => {
            return Err(BestError::at("defun: expected parameter list", other.loc()));
        },
    };
    let body = parts[3].duplicate();
    let fun = Function { params, body };
    let ghost fv = fun@;
    proof {
        lemma_eval_env_fields(env);
    }
    env.funs.insert(name.as_str(), fun);
    proof {
        lemma_eval_env_fields(env);
        assert(functions_of(env.funs@) =~= old(env)@.funs.insert(name@, fv));
        assert(env@.frames =~= old(env)@.frames);
    }
    Ok(())
}

/// An error among the first `k` forms is the error of registering them all.
proof fn lemma_register_prefix_error(program: Seq<Node>, k: int)
    requires
        0 <= k <= program.len(),
        register_functions(program.take(k)) is Err,
    ensures
        register_functions(program) == register_functions(program.take(k)),
    decreases program.len() - k,
{
    if k < program.len() {
        assert(program.take(k + 1).drop_last() =~= program.take(k));
        lemma_register_prefix_error(program, k + 1);
    } else {
        assert(program.take(k) =~= program);
    }
}

/// Runs a program: registers every function first, so that forward calls and
/// mutual recursion work, then evaluates the other forms in order, each with
/// the budget `fuel`. Printed values are appended to `out`.
pub fn eval_program<A, C>(program: &[Expr], fuel: u64, out: &mut Vec<Value>, arith: &A, test: &C) -> (r: Result<(), BestError>)
    where A: Fn(FloatArith, u64, u64) -> u64, C: Fn(FloatTest, u64, u64) -> bool,
    requires
        float_ops_ok(*arith, *test),
        program_shaped(nodes_of(program@)),
    ensures
        (match r { Ok(()) => Ok::<(), ErrorView>(()), Err(e) => Err(e@) }, vals_of(final(out)@))
            == run_program(model_of(*arith, *test), fuel as nat, nodes_of(program@), vals_of(old(out)@)),
{
    proof {
        lemma_nodes_of(program@);
    }
    let ghost nodes = nodes_of(program@);
    let ghost fm = model_of(*arith, *test);
    let mut env = EvalEnv::new();
    let mut i: usize = 0;
    assert(nodes.take(0) =~= Seq::<Node>::empty());
    #[verifier::loop_isolation(false)]
    while i < program.len()
        invariant
            i <= program@.len(),
            env@.frames == seq![Map::<Seq<char>, Val>::empty()],
            env@.depth == 0,
            funs_shaped(env@.funs),
            register_functions(nodes.take(i as int)) == Ok::<Map<Seq<char>, semantics::FunView>, ErrorView>(env@.funs),
        decreases program@.len() - i,
    {
        let expr = &program[i];
        assert(nodes.take(i + 1).drop_last() =~= nodes.take(i as int));
        assert(nodes.take(i + 1).last() == expr@);
        let is_defun = match head_id(expr) {
            Some(h) => text_eq(h, "defun"),
            None => false,
        };
        if is_defun {
            let parts = items(expr).unwrap();
            proof {
                assert(form_shaped(nodes[i as int]));
                lemma_nodes_of(parts@);
            }
            match register_fun(parts, expr.loc(), &mut env) {
                Ok(()) => {},
                Err(e) => {
                    proof {
                        lemma_register_prefix_error(nodes, i + 1);
                    }
                    return Err(e);
                },
            }
        }
        i = i + 1;
    }
    assert(nodes.take(i as int) =~= nodes);
    let ghost st0 = state_of(env@, out@);
    let mut i: usize = 0;
    #[verifier::loop_isolation(false)]
    while i < program.len()
        invariant
            i <= program@.len(),
            env_kept(st0.env, env@),
            ready(env@),
            run_forms(fm, fuel as nat, nodes, 0, st0) == run_forms(fm, fuel as nat, nodes, i as int, state_of(env@, out@)),
        decreases program@.len() - i,
    {
        let expr = &program[i];
        let skip = match head_id(expr) {
            Some(h) => text_eq(h, "declare") || text_eq(h, "defun"),
            None => false,
        };
        if !skip {
            proof {
                assert(form_shaped(nodes[i as int]));
            }
            let _ = eval_expr(expr, &mut env, fuel, out, arith, test)?;
        }
        i = i + 1;
    }
    Ok(())
}

/// Every item of `parts[i..]` is well shaped.
proof fn lemma_shaped_from(parts: Seq<Node>, i: int, j: int)
    requires
        0 <= i <= j < parts.len(),
        shaped_from(parts, i),
    ensures
        eval_shaped(parts[j]),
    decreases j - i,
{
    if i < j {
        lemma_shaped_from(parts, i + 1, j);
    }
}

} // verus!

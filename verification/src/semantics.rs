//! The evaluation rules, as mathematical functions.
use vstd::prelude::*;

use crate::ast::{Node, loc_of};
use crate::env::{frames_lookup, frames_find, undefined_variable, undefined_function};
use crate::error::{ErrorView, Loc, err_at, err_msg};
use crate::typing::{quoted, head_of, items_of};

verus! {

/// A float arithmetic operation, applied to IEEE-754 doubles given by their
/// bit patterns.
#[derive(Debug, Clone, Copy, PartialEq, Eq, Structural)]
pub enum FloatArith {
    Add,
    Sub,
    Mul,
    Div,
}

/// A float comparison, applied to IEEE-754 doubles given by their bit patterns.
#[derive(Debug, Clone, Copy, PartialEq, Eq, Structural)]
pub enum FloatTest {
    Eq,
    Ne,
    Lt,
    Gt,
    Le,
    Ge,
}

/// What the float operations compute, as functions of their operands.
pub struct FloatModel {
    pub arith: spec_fn(FloatArith, u64, u64) -> u64,
    pub test: spec_fn(FloatTest, u64, u64) -> bool,
}

/// A runtime value, as a mathematical value.
pub enum Val {
    Int(i64),
    Float(u64),
    Bool(bool),
    Str(Seq<char>),
    Void,
}

/// A function as a mathematical value: parameter names and body.
pub struct FunView {
    pub params: Seq<Seq<char>>,
    pub body: Node,
}

/// The evaluator's environment: the variable scopes (innermost last), the
/// functions and the number of calls in progress.
pub struct EvalEnvView {
    pub frames: Seq<Map<Seq<char>, Val>>,
    pub funs: Map<Seq<char>, FunView>,
    pub depth: nat,
}

/// The state of a run: the environment and the values printed so far.
pub struct State {
    pub env: EvalEnvView,
    pub out: Seq<Val>,
}

/// The result of evaluating an expression and the state after it.
pub type Outcome = (Result<Val, ErrorView>, State);

/// The most calls that may be in progress at once.
pub const MAX_DEPTH: usize = 8000;

/// The error when the evaluation budget is used up.
pub open spec fn limit_error() -> ErrorView {
    err_msg("evaluation limit reached"@)
}

/* -- Shape ------------------------------------------------------------------ */

/// Whether `parts[i..]` are all well shaped.
pub open spec fn shaped_from(parts: Seq<Node>, i: int) -> bool
    decreases parts, parts.len() + 1 - i,
{
    if i < 0 || i >= parts.len() {
        true
    } else {
        eval_shaped(parts[i]) && shaped_from(parts, i + 1)
    }
}

/// Whether the evaluator can take an expression apart without failing on its
/// shape: every form it evaluates has the items it reads, and the variable of
/// a `let` or `assign` is an identifier.
pub open spec fn eval_shaped(e: Node) -> bool
    decreases e, 0int,
{
    match e {
        Node::List(parts, _) => if parts.len() == 0 {
            true
        } else {
            match parts[0] {
                Node::Id(op, _) => shaped_list(op, parts),
                _ => true,
            }
        },
        _ => true,
    }
}

/// Shape of a list headed by `op`.
pub open spec fn shaped_list(op: Seq<char>, parts: Seq<Node>) -> bool
    decreases parts, parts.len() + 2,
{
    if op == "declare"@ {
        true
    } else if op == "let"@ {
        parts.len() >= 4 && parts[1] is Id && eval_shaped(parts[3])
    } else if op == "assign"@ {
        parts.len() >= 3 && parts[1] is Id && eval_shaped(parts[2])
    } else if op == "if"@ {
        parts.len() >= 4 && eval_shaped(parts[1]) && eval_shaped(parts[2]) && eval_shaped(parts[3])
    } else if op == "while"@ {
        parts.len() >= 2 && shaped_from(parts, 1)
    } else if op == "print"@ {
        parts.len() >= 2 && eval_shaped(parts[1])
    } else if op == "+"@ || op == "-"@ || op == "*"@ || op == "/"@ || op == "=="@ || op == "!="@
        || op == "<"@ || op == ">"@ || op == "<="@ || op == ">="@ || op == "and"@ || op == "or"@ {
        parts.len() >= 3 && eval_shaped(parts[1]) && eval_shaped(parts[2])
    } else if op == "not"@ {
        parts.len() >= 2 && eval_shaped(parts[1])
    } else if op == "concat"@ {
        parts.len() >= 3 && eval_shaped(parts[1]) && eval_shaped(parts[2])
    } else if op == "length"@ {
        parts.len() >= 2 && eval_shaped(parts[1])
    } else {
        shaped_from(parts, 1)
    }
}

/// The characters of the operator names.
pub proof fn lemma_operator_chars()
    ensures
        "+"@.len() == 1 && "+"@[0] == '+',
        "-"@.len() == 1 && "-"@[0] == '-',
        "*"@.len() == 1 && "*"@[0] == '*',
        "/"@.len() == 1 && "/"@[0] == '/',
        "<"@.len() == 1 && "<"@[0] == '<',
        ">"@.len() == 1 && ">"@[0] == '>',
        "=="@.len() == 2 && "=="@[0] == '=',
        "!="@.len() == 2 && "!="@[0] == '!',
        "<="@.len() == 2 && "<="@[0] == '<',
        ">="@.len() == 2 && ">="@[0] == '>',
{
    reveal_strlit("+");
    reveal_strlit("-");
    reveal_strlit("*");
    reveal_strlit("/");
    reveal_strlit("<");
    reveal_strlit(">");
    reveal_strlit("==");
    reveal_strlit("!=");
    reveal_strlit("<=");
    reveal_strlit(">=");
}

/// The operators that take two operands of one type.
pub open spec fn is_binary_op(op: Seq<char>) -> bool {
    op == "+"@ || op == "-"@ || op == "*"@ || op == "/"@ || op == "=="@ || op == "!="@ || op == "<"@
        || op == ">"@ || op == "<="@ || op == ">="@
}

/// Whether every function body is well shaped.
pub open spec fn funs_shaped(funs: Map<Seq<char>, FunView>) -> bool {
    forall|k: Seq<char>| #[trigger] funs.contains_key(k) ==> eval_shaped(funs[k].body)
}

/// The heads that the evaluator handles itself; any other head is a call of
/// a user function.
pub open spec fn is_builtin(op: Seq<char>) -> bool {
    op == "declare"@ || op == "let"@ || op == "assign"@ || op == "if"@ || op == "while"@ || op == "print"@
        || is_binary_op(op) || op == "and"@ || op == "or"@ || op == "not"@ || op == "concat"@ || op == "length"@
}

/// Whether a call of a user function occurs in `e`, at any depth.
pub open spec fn has_call(e: Node) -> bool
    decreases e, 0int,
{
    match e {
        Node::List(parts, _) => (parts.len() > 0 && parts[0] is Id && !is_builtin(parts[0]->Id_0))
            || has_call_from(parts, 0),
        _ => false,
    }
}

/// Whether a call of a user function occurs in `parts[i..]`, at any depth.
pub open spec fn has_call_from(parts: Seq<Node>, i: int) -> bool
    decreases parts, parts.len() + 1 - i,
{
    if i < 0 || i >= parts.len() {
        false
    } else {
        has_call(parts[i]) || has_call_from(parts, i + 1)
    }
}

/// No item of a list free of calls holds a call.
pub proof fn lemma_call_free_items(parts: Seq<Node>)
    ensures
        !has_call_from(parts, 0) ==> forall|j: int| 0 <= j < parts.len() ==> !has_call(#[trigger] parts[j]),
{
    assert forall|j: int| 0 <= j < parts.len() && !has_call_from(parts, 0) implies !has_call(#[trigger] parts[j]) by {
        lemma_call_free_from(parts, 0, j);
    }
}

proof fn lemma_call_free_from(parts: Seq<Node>, i: int, j: int)
    requires
        0 <= i <= j < parts.len(),
        !has_call_from(parts, i),
    ensures
        !has_call(parts[j]),
    decreases j - i,
{
    if i < j {
        lemma_call_free_from(parts, i + 1, j);
    }
}

/* -- State changes ---------------------------------------------------------- */

pub open spec fn with_frames(st: State, frames: Seq<Map<Seq<char>, Val>>) -> State {
    State { env: EvalEnvView { frames, ..st.env }, ..st }
}

/// `name` bound to `v` in the innermost scope.
pub open spec fn declare_val(st: State, name: Seq<char>, v: Val) -> State {
    with_frames(st, st.env.frames.update(st.env.frames.len() - 1, st.env.frames.last().insert(name, v)))
}

/// `name` given the value `v` in the innermost scope that holds it.
pub open spec fn assign_val(frames: Seq<Map<Seq<char>, Val>>, name: Seq<char>, v: Val, loc: Loc) -> Result<Seq<Map<Seq<char>, Val>>, ErrorView> {
    match frames_find(frames, name) {
        Some(i) => Ok(frames.update(i, frames[i].insert(name, v))),
        None => Err(undefined_variable(name, loc)),
    }
}

/* -- Evaluation ------------------------------------------------------------- */

/// The value of expression `e` in state `st`, with `fuel` bounding the depth
/// of nested evaluation and the number of loop rounds, and the state after it.
pub open spec fn eval_node(fm: FloatModel, fuel: nat, e: Node, st: State) -> Outcome
    decreases fuel, 0int,
{
    if fuel == 0 {
        (Err(limit_error()), st)
    } else {
        let f = (fuel - 1) as nat;
        match e {
            Node::Int(n, _) => (Ok(Val::Int(n)), st),
            Node::Float(b, _) => (Ok(Val::Float(b)), st),
            Node::Bool(b, _) => (Ok(Val::Bool(b)), st),
            Node::Str(s, _) => (Ok(Val::Str(s)), st),
            Node::TypeName(_, loc) => (Err(err_at("type name in expression"@, loc)), st),
            Node::Id(name, loc) => match frames_lookup(st.env.frames, name) {
                Some(v) => (Ok(v), st),
                None => (Err(undefined_variable(name, loc)), st),
            },
            Node::List(parts, loc) => if parts.len() == 0 {
                (Err(err_at("empty list is not a valid expression"@, loc)), st)
            } else {
                match parts[0] {
                    Node::Id(op, _) => eval_list(fm, f, op, parts, loc, st),
                    _ => (Err(err_at("list head must be an identifier"@, loc_of(parts[0]))), st),
                }
            },
        }
    }
}

/// The name held by an identifier node.
pub open spec fn id_of(e: Node) -> Seq<char> {
    match e {
        Node::Id(s, _) => s,
        _ => Seq::empty(),
    }
}

/// The value of the list `parts` headed by `op`.
pub open spec fn eval_list(fm: FloatModel, f: nat, op: Seq<char>, parts: Seq<Node>, loc: Loc, st: State) -> Outcome
    decreases f, parts.len() + 4,
{
    if op == "declare"@ {
        (Ok(Val::Void), st)
    } else if op == "let"@ {
        match eval_node(fm, f, parts[3], st) {
            (Err(e), st1) => (Err(e), st1),
            (Ok(v), st1) => (Ok(Val::Void), declare_val(st1, id_of(parts[1]), v)),
        }
    } else if op == "assign"@ {
        match eval_node(fm, f, parts[2], st) {
            (Err(e), st1) => (Err(e), st1),
            (Ok(v), st1) => match assign_val(st1.env.frames, id_of(parts[1]), v, loc_of(parts[1])) {
                Err(e) => (Err(e), st1),
                Ok(frames) => (Ok(Val::Void), with_frames(st1, frames)),
            },
        }
    } else if op == "if"@ {
        match eval_node(fm, f, parts[1], st) {
            (Err(e), st1) => (Err(e), st1),
            (Ok(Val::Bool(true)), st1) => eval_node(fm, f, parts[2], st1),
            (Ok(Val::Bool(false)), st1) => eval_node(fm, f, parts[3], st1),
            (Ok(_), st1) => (Err(err_at("if condition must be bool"@, loc_of(parts[1]))), st1),
        }
    } else if op == "while"@ {
        eval_while(fm, f, parts, st)
    } else if op == "print"@ {
        match eval_node(fm, f, parts[1], st) {
            (Err(e), st1) => (Err(e), st1),
            (Ok(v), st1) => (Ok(Val::Void), State { out: st1.out.push(v), ..st1 }),
        }
    } else if op == "+"@ || op == "-"@ || op == "*"@ || op == "/"@ {
        eval_arith(fm, f, op, parts, loc, st)
    } else if op == "=="@ || op == "!="@ {
        eval_equality(fm, f, op, parts, st)
    } else if op == "<"@ || op == ">"@ || op == "<="@ || op == ">="@ {
        eval_order(fm, f, op, parts, st)
    } else if op == "and"@ || op == "or"@ {
        eval_logic(fm, f, op, parts, st)
    } else if op == "not"@ {
        match eval_bool(fm, f, parts[1], "not"@, st) {
            (Err(e), st1) => (Err(e), st1),
            (Ok(a), st1) => (Ok(Val::Bool(!a)), st1),
        }
    } else if op == "concat"@ {
        match eval_str(fm, f, parts[1], "concat"@, st) {
            (Err(e), st1) => (Err(e), st1),
            (Ok(a), st1) => match eval_str(fm, f, parts[2], "concat"@, st1) {
                (Err(e), st2) => (Err(e), st2),
                (Ok(b), st2) => (Ok(Val::Str(a + b)), st2),
            },
        }
    } else if op == "length"@ {
        match eval_str(fm, f, parts[1], "length"@, st) {
            (Err(e), st1) => (Err(e), st1),
            (Ok(a), st1) => (Ok(Val::Int(a.len() as i64)), st1),
        }
    } else {
        eval_call(fm, f, op, parts, loc, st)
    }
}

/// The body items `parts[i..]` of a loop, in order.
pub open spec fn eval_seq(fm: FloatModel, f: nat, parts: Seq<Node>, i: int, st: State) -> (Result<(), ErrorView>, State)
    decreases f, parts.len() + 2 - i,
{
    if i < 2 || i >= parts.len() {
        (Ok(()), st)
    } else {
        match eval_node(fm, f, parts[i], st) {
            (Err(e), st1) => (Err(e), st1),
            (Ok(_), st1) => eval_seq(fm, f, parts, i + 1, st1),
        }
    }
}

/// `(while cond body...)` with at most `f` rounds left.
pub open spec fn eval_while(fm: FloatModel, f: nat, parts: Seq<Node>, st: State) -> Outcome
    decreases f, parts.len() + 2,
{
    if f == 0 {
        (Err(limit_error()), st)
    } else {
        match eval_node(fm, f, parts[1], st) {
            (Err(e), st1) => (Err(e), st1),
            (Ok(Val::Bool(false)), st1) => (Ok(Val::Void), st1),
            (Ok(Val::Bool(true)), st1) => match eval_seq(fm, f, parts, 2, st1) {
                (Err(e), st2) => (Err(e), st2),
                (Ok(()), st2) => eval_while(fm, (f - 1) as nat, parts, st2),
            },
            (Ok(_), st1) => (Err(err_at("while condition must be bool"@, loc_of(parts[1]))), st1),
        }
    }
}

/// The overflow message of an integer operation.
pub open spec fn overflow_msg(op: Seq<char>) -> Seq<char> {
    if op == "+"@ {
        "attempt to add with overflow"@
    } else if op == "-"@ {
        "attempt to subtract with overflow"@
    } else if op == "*"@ {
        "attempt to multiply with overflow"@
    } else {
        "attempt to divide with overflow"@
    }
}

/// The float operation an arithmetic operator stands for.
pub open spec fn float_arith_of(op: Seq<char>) -> FloatArith {
    if op == "+"@ {
        FloatArith::Add
    } else if op == "-"@ {
        FloatArith::Sub
    } else if op == "*"@ {
        FloatArith::Mul
    } else {
        FloatArith::Div
    }
}

/// Integer arithmetic; `None` when the result does not fit an `i64`.
pub open spec fn int_arith(op: Seq<char>, a: i64, b: i64) -> Option<i64> {
    if op == "+"@ {
        a.checked_add(b)
    } else if op == "-"@ {
        a.checked_sub(b)
    } else if op == "*"@ {
        a.checked_mul(b)
    } else {
        a.checked_div(b)
    }
}

/// `+ - * /` on two ints or two floats.
pub open spec fn eval_arith(fm: FloatModel, f: nat, op: Seq<char>, parts: Seq<Node>, loc: Loc, st: State) -> Outcome
    decreases f, parts.len() + 2,
{
    match eval_node(fm, f, parts[1], st) {
        (Err(e), st1) => (Err(e), st1),
        (Ok(lv), st1) => match eval_node(fm, f, parts[2], st1) {
            (Err(e), st2) => (Err(e), st2),
            (Ok(rv), st2) => (arith_values(fm, op, lv, rv, loc), st2),
        },
    }
}

/// The result of an arithmetic operator on two values.
pub open spec fn arith_values(fm: FloatModel, op: Seq<char>, lv: Val, rv: Val, loc: Loc) -> Result<Val, ErrorView> {
    if op == "/"@ {
        match (lv, rv) {
            (Val::Int(a), Val::Int(b)) => if b == 0 {
                Err(err_at("division by zero"@, loc))
            } else {
                match int_arith(op, a, b) {
                    Some(q) => Ok(Val::Int(q)),
                    None => Err(err_msg(overflow_msg(op))),
                }
            },
            (Val::Float(a), Val::Float(b)) => if (fm.test)(FloatTest::Eq, b, 0u64) {
                Err(err_at("division by zero"@, loc))
            } else {
                Ok(Val::Float((fm.arith)(FloatArith::Div, a, b)))
            },
            _ => Err(err_at("'/' requires numeric operands of the same type"@, loc)),
        }
    } else {
        match (lv, rv) {
            (Val::Int(a), Val::Int(b)) => match int_arith(op, a, b) {
                Some(r) => Ok(Val::Int(r)),
                None => Err(err_msg(overflow_msg(op))),
            },
            (Val::Float(a), Val::Float(b)) => Ok(Val::Float((fm.arith)(float_arith_of(op), a, b))),
            _ => Err(err_msg(quoted(op) + " requires numeric operands"@)),
        }
    }
}

/// `== !=` on two values of one type.
pub open spec fn equality_values(fm: FloatModel, op: Seq<char>, lv: Val, rv: Val) -> Result<Val, ErrorView> {
    let eq = op == "=="@;
    match (lv, rv) {
        (Val::Int(a), Val::Int(b)) => Ok(Val::Bool(if eq { a == b } else { a != b })),
        (Val::Float(a), Val::Float(b)) => Ok(Val::Bool((fm.test)(if eq { FloatTest::Eq } else { FloatTest::Ne }, a, b))),
        (Val::Bool(a), Val::Bool(b)) => Ok(Val::Bool(if eq { a == b } else { a != b })),
        (Val::Str(a), Val::Str(b)) => Ok(Val::Bool(if eq { a == b } else { a != b })),
        _ => Err(err_msg(quoted(op) + " type mismatch"@)),
    }
}

pub open spec fn eval_equality(fm: FloatModel, f: nat, op: Seq<char>, parts: Seq<Node>, st: State) -> Outcome
    decreases f, parts.len() + 2,
{
    match eval_node(fm, f, parts[1], st) {
        (Err(e), st1) => (Err(e), st1),
        (Ok(lv), st1) => match eval_node(fm, f, parts[2], st1) {
            (Err(e), st2) => (Err(e), st2),
            (Ok(rv), st2) => (equality_values(fm, op, lv, rv), st2),
        },
    }
}

/// The float comparison an ordering operator stands for.
pub open spec fn float_test_of(op: Seq<char>) -> FloatTest {
    if op == "<"@ {
        FloatTest::Lt
    } else if op == ">"@ {
        FloatTest::Gt
    } else if op == "<="@ {
        FloatTest::Le
    } else {
        FloatTest::Ge
    }
}

/// An ordering operator on two ints.
pub open spec fn int_order(op: Seq<char>, a: i64, b: i64) -> bool {
    if op == "<"@ {
        a < b
    } else if op == ">"@ {
        a > b
    } else if op == "<="@ {
        a <= b
    } else {
        a >= b
    }
}

/// `< > <= >=` on two ints or two floats.
pub open spec fn order_values(fm: FloatModel, op: Seq<char>, lv: Val, rv: Val) -> Result<Val, ErrorView> {
    match (lv, rv) {
        (Val::Int(a), Val::Int(b)) => Ok(Val::Bool(int_order(op, a, b))),
        (Val::Float(a), Val::Float(b)) => Ok(Val::Bool((fm.test)(float_test_of(op), a, b))),
        _ => Err(err_msg(quoted(op) + " requires numeric operands"@)),
    }
}

pub open spec fn eval_order(fm: FloatModel, f: nat, op: Seq<char>, parts: Seq<Node>, st: State) -> Outcome
    decreases f, parts.len() + 2,
{
    match eval_node(fm, f, parts[1], st) {
        (Err(e), st1) => (Err(e), st1),
        (Ok(lv), st1) => match eval_node(fm, f, parts[2], st1) {
            (Err(e), st2) => (Err(e), st2),
            (Ok(rv), st2) => (order_values(fm, op, lv, rv), st2),
        },
    }
}

/// The value of `e`, which must be a bool.
pub open spec fn eval_bool(fm: FloatModel, f: nat, e: Node, op: Seq<char>, st: State) -> (Result<bool, ErrorView>, State)
    decreases f, 1int,
{
    match eval_node(fm, f, e, st) {
        (Err(err), st1) => (Err(err), st1),
        (Ok(Val::Bool(b)), st1) => (Ok(b), st1),
        (Ok(_), st1) => (Err(err_at(quoted(op) + " requires bool operands"@, loc_of(e))), st1),
    }
}

/// The value of `e`, which must be a str.
pub open spec fn eval_str(fm: FloatModel, f: nat, e: Node, op: Seq<char>, st: State) -> (Result<Seq<char>, ErrorView>, State)
    decreases f, 1int,
{
    match eval_node(fm, f, e, st) {
        (Err(err), st1) => (Err(err), st1),
        (Ok(Val::Str(s)), st1) => (Ok(s), st1),
        (Ok(_), st1) => (Err(err_at(quoted(op) + " requires str operands"@, loc_of(e))), st1),
    }
}

/// `and`, `or`: both operands are evaluated.
pub open spec fn eval_logic(fm: FloatModel, f: nat, op: Seq<char>, parts: Seq<Node>, st: State) -> Outcome
    decreases f, parts.len() + 2,
{
    match eval_bool(fm, f, parts[1], op, st) {
        (Err(e), st1) => (Err(e), st1),
        (Ok(a), st1) => match eval_bool(fm, f, parts[2], op, st1) {
            (Err(e), st2) => (Err(e), st2),
            (Ok(b), st2) => (Ok(Val::Bool(if op == "and"@ { a && b } else { a || b })), st2),
        },
    }
}

/// Binds the parameters `params[k..]` to the values of the arguments
/// `parts[k + 1..]`, as far as both go, on top of `frame`.
pub open spec fn eval_args(fm: FloatModel, f: nat, params: Seq<Seq<char>>, parts: Seq<Node>, k: int, frame: Map<Seq<char>, Val>, st: State) -> (Result<Map<Seq<char>, Val>, ErrorView>, State)
    decreases f, parts.len() + 1 - k,
{
    if k < 0 || k >= params.len() || k + 1 >= parts.len() {
        (Ok(frame), st)
    } else {
        match eval_node(fm, f, parts[k + 1], st) {
            (Err(e), st1) => (Err(e), st1),
            (Ok(v), st1) => eval_args(fm, f, params, parts, k + 1, frame.insert(params[k], v), st1),
        }
    }
}

/// A call of a user function: the arguments are evaluated in the caller's
/// scopes, then the body in a new innermost scope holding the parameters.
pub open spec fn eval_call(fm: FloatModel, f: nat, name: Seq<char>, parts: Seq<Node>, loc: Loc, st: State) -> Outcome
    decreases f, parts.len() + 2,
{
    if st.env.depth >= MAX_DEPTH {
        (Err(err_at("stack overflow calling "@ + quoted(name), loc)), st)
    } else if !st.env.funs.contains_key(name) {
        (Err(undefined_function(name, loc)), st)
    } else {
        let fun = st.env.funs[name];
        match eval_args(fm, f, fun.params, parts, 0, Map::empty(), st) {
            (Err(e), st1) => (Err(e), st1),
            (Ok(frame), st1) => {
                let inner = State {
                    env: EvalEnvView {
                        frames: st1.env.frames.push(frame),
                        depth: st1.env.depth + 1,
                        ..st1.env
                    },
                    ..st1
                };
                let (r, st2) = eval_node(fm, f, fun.body, inner);
                (r, State {
                    env: EvalEnvView {
                        frames: st2.env.frames.drop_last(),
                        depth: (st2.env.depth - 1) as nat,
                        ..st2.env
                    },
                    ..st2
                })
            },
        }
    }
}

/* -- Programs ------------------------------------------------------------- */

/// Whether each form of a program can be taken apart by the evaluator: a
/// `defun` has a name, a parameter list and a well-shaped body, and any other
/// form but a `declare` is well shaped.
pub open spec fn form_shaped(e: Node) -> bool {
    if head_of(e) == Some("defun"@) {
        items_of(e).len() >= 4 && eval_shaped(items_of(e)[3])
    } else if head_of(e) == Some("declare"@) {
        true
    } else {
        eval_shaped(e)
    }
}

pub open spec fn program_shaped(program: Seq<Node>) -> bool {
    forall|i: int| 0 <= i < program.len() ==> #[trigger] form_shaped(program[i])
}

/// Parameter names of a `defun`, the first error (from the left) winning.
pub open spec fn defun_params(items: Seq<Node>) -> Result<Seq<Seq<char>>, ErrorView>
    decreases items.len(),
{
    if items.len() == 0 {
        Ok(Seq::empty())
    } else {
        match defun_params(items.drop_last()) {
            Err(e) => Err(e),
            Ok(ns) => match items.last() {
                Node::Id(s, _) => Ok(ns.push(s)),
                _ => Err(err_at("defun: param must be an identifier"@, loc_of(items.last()))),
            },
        }
    }
}

/// The function that a `defun` form with items `parts` defines, and its name.
pub open spec fn defun_function(parts: Seq<Node>) -> Result<(Seq<char>, FunView), ErrorView> {
    match parts[1] {
        Node::Id(name, _) => match parts[2] {
            Node::List(items, _) => match defun_params(items) {
                Err(e) => Err(e),
                Ok(params) => Ok((name, FunView { params, body: parts[3] })),
            },
            _ => Err(err_at("defun: expected parameter list"@, loc_of(parts[2]))),
        },
        _ => Err(err_at("defun: name must be an identifier"@, loc_of(parts[1]))),
    }
}

/// The functions that the `defun` forms of a program define, a later
/// definition of a name replacing an earlier one.
pub open spec fn register_functions(program: Seq<Node>) -> Result<Map<Seq<char>, FunView>, ErrorView>
    decreases program.len(),
{
    if program.len() == 0 {
        Ok(Map::empty())
    } else {
        match register_functions(program.drop_last()) {
            Err(e) => Err(e),
            Ok(funs) => if head_of(program.last()) == Some("defun"@) {
                match defun_function(items_of(program.last())) {
                    Err(e) => Err(e),
                    Ok((name, fun)) => Ok(funs.insert(name, fun)),
                }
            } else {
                Ok(funs)
            },
        }
    }
}

/// The forms `program[i..]` run in order, each with the budget `fuel`;
/// `declare` and `defun` forms are passed over.
pub open spec fn run_forms(fm: FloatModel, fuel: nat, program: Seq<Node>, i: int, st: State) -> (Result<(), ErrorView>, State)
    decreases program.len() - i,
{
    if i < 0 || i >= program.len() {
        (Ok(()), st)
    } else if head_of(program[i]) == Some("declare"@) || head_of(program[i]) == Some("defun"@) {
        run_forms(fm, fuel, program, i + 1, st)
    } else {
        match eval_node(fm, fuel, program[i], st) {
            (Err(e), st1) => (Err(e), st1),
            (Ok(_), st1) => run_forms(fm, fuel, program, i + 1, st1),
        }
    }
}

/// The run of a whole program: every function is registered first, so that
/// forward calls and mutual recursion work, then the other forms run in one
/// global scope. The result and everything printed, after `out` printed before.
pub open spec fn run_program(fm: FloatModel, fuel: nat, program: Seq<Node>, out: Seq<Val>) -> (Result<(), ErrorView>, Seq<Val>) {
    match register_functions(program) {
        Err(e) => (Err(e), out),
        Ok(funs) => {
            let st = State {
                env: EvalEnvView { frames: seq![Map::<Seq<char>, Val>::empty()], funs, depth: 0 },
                out,
            };
            let (r, st1) = run_forms(fm, fuel, program, 0, st);
            (r, st1.out)
        },
    }
}

} // verus!

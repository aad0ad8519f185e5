//! Type soundness of expressions: what the checker accepts evaluates to a
//! value of its type, or stops on an error that no type system rules out.
use vstd::prelude::*;

use crate::ast::Node;
use crate::env::{TypeEnvView, frames_lookup, frames_find};
use crate::error::{ErrorView, Loc, err_at, err_msg};
use crate::laws::{law_lookup_after_declare, law_declare_keeps_other_names};
use crate::semantics::{
    State, Val, FunView, FloatModel, EvalEnvView, Outcome, MAX_DEPTH, limit_error, eval_node, eval_list,
    eval_seq, eval_while, eval_args, eval_call, eval_logic, declare_val, with_frames, arith_values,
    equality_values, order_values, overflow_msg, is_binary_op,
};
use crate::types::Type;
use crate::typing::{
    check_node, check_list, check_let, check_assign, check_if, check_seq, check_while, check_print,
    check_binary, check_logic, check_not, check_concat, check_length, check_args, check_call, declare,
    quoted, bind_all, push_scope, body_env, lemma_keywords,
};

verus! {

/* -- Values, scopes and functions that fit their types ---------------------- */

/// Whether a value is of a type.
pub open spec fn has_type(v: Val, t: Type) -> bool {
    match v {
        Val::Int(_) => t == Type::Int,
        Val::Float(_) => t == Type::Float,
        Val::Bool(_) => t == Type::Bool,
        Val::Str(_) => t == Type::Str,
        Val::Void => t == Type::Void,
    }
}

/// Every variable that the checker sees in `env` has, in the runtime scope
/// `m`, a value of the type the checker gives it.
pub open spec fn scope_agrees(env: TypeEnvView, m: Map<Seq<char>, Val>) -> bool {
    forall|k: Seq<char>| #[trigger] frames_lookup(env.frames, k) is Some
        ==> m.contains_key(k) && has_type(m[k], frames_lookup(env.frames, k)->Some_0)
}

/// The body of function `f` checks, in the scope of its parameters, with
/// the return type of its signature `sig`.
pub open spec fn fun_typed(f: FunView, sig: (Seq<Type>, Type), sigs: Map<Seq<char>, (Seq<Type>, Type)>) -> bool {
    &&& f.params.len() == sig.0.len()
    &&& check_node(f.body, body_env(f.params, sig.0, sigs)) is Ok
    &&& check_node(f.body, body_env(f.params, sig.0, sigs))->Ok_0.0 == sig.1
}

/// Every declared signature has a function that fits it.
pub open spec fn funs_typed(funs: Map<Seq<char>, FunView>, sigs: Map<Seq<char>, (Seq<Type>, Type)>) -> bool {
    forall|n: Seq<char>| #[trigger] sigs.contains_key(n) ==> funs.contains_key(n) && fun_typed(funs[n], sigs[n], sigs)
}

/// A runtime state in which code checked in `env` runs: a scope, functions
/// that fit the signatures, and an innermost scope that holds every
/// variable the checker sees, with a value of its type.
pub open spec fn state_fits(st: State, env: TypeEnvView) -> bool {
    &&& st.env.frames.len() > 0
    &&& funs_typed(st.env.funs, env.funs)
    &&& scope_agrees(env, st.env.frames.last())
}

/// The errors that no type system rules out: the evaluation budget used up,
/// a division by zero, an integer overflow, and too many calls in progress.
pub open spec fn is_runtime_fault(e: ErrorView) -> bool {
    ||| e == limit_error()
    ||| exists|loc: Loc| e == err_at("division by zero"@, loc)
    ||| e == err_msg("attempt to add with overflow"@)
    ||| e == err_msg("attempt to subtract with overflow"@)
    ||| e == err_msg("attempt to multiply with overflow"@)
    ||| e == err_msg("attempt to divide with overflow"@)
    ||| exists|name: Seq<char>, loc: Loc| e == err_at("stack overflow calling "@ + quoted(name), loc)
}

/// The number of scopes, the outer scopes, the functions and the call depth
/// are as they were.
pub open spec fn kept(before: State, after: State) -> bool {
    &&& after.env.frames.len() == before.env.frames.len()
    &&& forall|i: int| 0 <= i < before.env.frames.len() - 1 ==> #[trigger] after.env.frames[i] == before.env.frames[i]
    &&& after.env.funs == before.env.funs
    &&& after.env.depth == before.env.depth
}

/// A value of type `ty` in a kept state whose innermost scope agrees with the
/// checker's environment `after`, or a runtime fault.
pub open spec fn sound(o: Outcome, ty: Type, st: State, after: TypeEnvView) -> bool {
    match o.0 {
        Ok(v) => has_type(v, ty) && kept(st, o.1) && scope_agrees(after, o.1.env.frames.last()),
        Err(e) => is_runtime_fault(e),
    }
}

proof fn lemma_kept_trans(a: State, b: State, c: State)
    requires
        kept(a, b),
        kept(b, c),
    ensures
        kept(a, c),
{
    assert forall|i: int| 0 <= i < a.env.frames.len() - 1 implies #[trigger] c.env.frames[i] == a.env.frames[i] by {
        assert(b.env.frames[i] == a.env.frames[i]);
    }
}

/// A new, empty innermost checker scope hides nothing.
proof fn lemma_lookup_push(env: TypeEnvView, k: Seq<char>)
    ensures
        frames_lookup(push_scope(env).frames, k) == frames_lookup(env.frames, k),
{
    let fs = push_scope(env).frames;
    assert(fs.drop_last() =~= env.frames);
    assert(!fs.last().contains_key(k));
}

/* -- The checker keeps the names it sees ------------------------------------ */

/// What checking keeps: the number of scopes, the signatures, and the type
/// of every name the checker saw before.
pub open spec fn check_keeps(before: TypeEnvView, after: TypeEnvView) -> bool {
    &&& after.funs == before.funs
    &&& after.frames.len() == before.frames.len()
    &&& forall|k: Seq<char>| #[trigger] frames_lookup(before.frames, k) is Some
        ==> frames_lookup(after.frames, k) == frames_lookup(before.frames, k)
}

proof fn lemma_keeps_trans(a: TypeEnvView, b: TypeEnvView, c: TypeEnvView)
    requires
        check_keeps(a, b),
        check_keeps(b, c),
    ensures
        check_keeps(a, c),
{
    assert forall|k: Seq<char>| #[trigger] frames_lookup(a.frames, k) is Some
        implies frames_lookup(c.frames, k) == frames_lookup(a.frames, k) by {
        assert(frames_lookup(b.frames, k) == frames_lookup(a.frames, k));
    }
}

/// Checking an expression never changes the type of a name the checker
/// sees, nor the number of scopes or the signatures.
pub proof fn lemma_check_node_keeps(e: Node, env: TypeEnvView)
    requires
        check_node(e, env) is Ok,
        env.frames.len() > 0,
    ensures
        check_keeps(env, check_node(e, env)->Ok_0.1),
    decreases e, 0int,
{
    if let Node::List(parts, loc) = e {
        if parts.len() > 0 {
            if let Node::Id(op, _) = parts[0] {
                lemma_check_list_keeps(op, parts, loc, env);
            }
        }
    }
}

proof fn lemma_check_list_keeps(op: Seq<char>, parts: Seq<Node>, loc: Loc, env: TypeEnvView)
    requires
        check_list(op, parts, loc, env) is Ok,
        env.frames.len() > 0,
    ensures
        check_keeps(env, check_list(op, parts, loc, env)->Ok_0.1),
    decreases parts, parts.len() + 3,
{
    lemma_keywords();
    crate::semantics::lemma_operator_chars();
    let r = check_list(op, parts, loc, env);
    if op == "let"@ {
        let ty = crate::typing::require_type(parts[2], "let: type"@)->Ok_0;
        lemma_check_node_keeps(parts[3], env);
        let env1 = check_node(parts[3], env)->Ok_0.1;
        let name = parts[1]->Id_0;
        let env2 = declare(env1, name, ty);
        assert(r->Ok_0.1 == env2);
        assert forall|k: Seq<char>| #[trigger] frames_lookup(env.frames, k) is Some
            implies frames_lookup(env2.frames, k) == frames_lookup(env.frames, k) by {
            if k == name {
                law_lookup_after_declare(env1.frames, name, ty);
            } else {
                law_declare_keeps_other_names(env1.frames, name, ty, k);
            }
        }
    } else if op == "assign"@ {
        lemma_check_node_keeps(parts[2], env);
    } else if op == "if"@ || op == "while"@ || op == "print"@ || op == "not"@ || op == "length"@ {
        lemma_check_node_keeps(parts[1], env);
    } else if is_binary_op(op) || op == "and"@ || op == "or"@ || op == "concat"@ {
        lemma_check_node_keeps(parts[1], env);
        let env1 = check_node(parts[1], env)->Ok_0.1;
        lemma_check_node_keeps(parts[2], env1);
        lemma_keeps_trans(env, env1, check_node(parts[2], env1)->Ok_0.1);
    } else if op == "defun"@ || op == "declare"@ {
    } else {
        lemma_check_args_keeps(op, parts, 1, env.funs[op].0, env);
    }
}

proof fn lemma_check_args_keeps(name: Seq<char>, parts: Seq<Node>, i: int, params: Seq<Type>, env: TypeEnvView)
    requires
        check_args(name, parts, i, params, env) is Ok,
        env.frames.len() > 0,
    ensures
        check_keeps(env, check_args(name, parts, i, params, env)->Ok_0),
    decreases parts, parts.len() + 1 - i,
{
    if 1 <= i < parts.len() {
        lemma_check_node_keeps(parts[i], env);
        let env1 = check_node(parts[i], env)->Ok_0.1;
        lemma_check_args_keeps(name, parts, i + 1, params, env1);
        lemma_keeps_trans(env, env1, check_args(name, parts, i + 1, params, env1)->Ok_0);
    }
}

proof fn lemma_check_seq_keeps(parts: Seq<Node>, i: int, env: TypeEnvView)
    requires
        check_seq(parts, i, env) is Ok,
        env.frames.len() > 0,
    ensures
        check_keeps(env, check_seq(parts, i, env)->Ok_0),
    decreases parts, parts.len() + 1 - i,
{
    if 1 <= i < parts.len() {
        lemma_check_node_keeps(parts[i], env);
        let env1 = check_node(parts[i], env)->Ok_0.1;
        lemma_check_seq_keeps(parts, i + 1, env1);
        lemma_keeps_trans(env, env1, check_seq(parts, i + 1, env1)->Ok_0);
    }
}

/// A state that fits `env` also fits an environment that sees no name with
/// another type and no name `env` does not see.
proof fn lemma_agrees_less(env: TypeEnvView, env2: TypeEnvView, m: Map<Seq<char>, Val>)
    requires
        scope_agrees(env2, m),
        check_keeps(env, env2),
    ensures
        scope_agrees(env, m),
{
    assert forall|k: Seq<char>| #[trigger] frames_lookup(env.frames, k) is Some
        implies m.contains_key(k) && has_type(m[k], frames_lookup(env.frames, k)->Some_0) by {
        assert(frames_lookup(env2.frames, k) == frames_lookup(env.frames, k));
    }
}

/// The scope of a branch or a loop body sees what its surroundings see.
proof fn lemma_agrees_push(env: TypeEnvView, m: Map<Seq<char>, Val>)
    requires
        scope_agrees(env, m),
    ensures
        scope_agrees(push_scope(env), m),
        forall|k: Seq<char>| #[trigger] frames_lookup(push_scope(env).frames, k) == frames_lookup(env.frames, k),
{
    assert forall|k: Seq<char>| #[trigger] frames_lookup(push_scope(env).frames, k) == frames_lookup(env.frames, k) by {
        lemma_lookup_push(env, k);
    }
}

/* -- Evaluation of what the checker accepts --------------------------------- */

/// The conditions under which an expression evaluates soundly.
pub open spec fn eval_ready(e: Node, st: State, env: TypeEnvView) -> bool {
    &&& check_node(e, env) is Ok
    &&& env.frames.len() > 0
    &&& state_fits(st, env)
}

/// An expression that the check accepts evaluates, in a state that fits the
/// checker's environment, to a value of its type in a kept state that fits
/// the environment after the check, or to a runtime fault.
pub proof fn lemma_eval_node_sound(fm: FloatModel, fuel: nat, e: Node, st: State, env: TypeEnvView)
    requires
        eval_ready(e, st, env),
    ensures
        sound(eval_node(fm, fuel, e, st), check_node(e, env)->Ok_0.0, st, check_node(e, env)->Ok_0.1),
    decreases fuel, 0int,
{
    if fuel > 0 {
        let f = (fuel - 1) as nat;
        match e {
            Node::Id(name, loc) => {
                let fs = st.env.frames;
                assert(frames_lookup(env.frames, name) is Some);
                assert(fs.last().contains_key(name));
                assert(frames_lookup(fs, name) == Some(fs.last()[name]));
            },
            Node::List(parts, loc) => {
                let op = parts[0]->Id_0;
                lemma_eval_list_sound(fm, f, op, parts, loc, st, env);
            },
            _ => {},
        }
    }
}

/// The conditions for a list headed by `op`.
pub open spec fn list_ready(op: Seq<char>, parts: Seq<Node>, loc: Loc, st: State, env: TypeEnvView) -> bool {
    &&& parts.len() > 0
    &&& parts[0] is Id && parts[0]->Id_0 == op
    &&& check_list(op, parts, loc, env) is Ok
    &&& env.frames.len() > 0
    &&& state_fits(st, env)
}

/// The same for a list, by its head.
proof fn lemma_eval_list_sound(fm: FloatModel, f: nat, op: Seq<char>, parts: Seq<Node>, loc: Loc, st: State, env: TypeEnvView)
    requires
        list_ready(op, parts, loc, st, env),
    ensures
        sound(eval_list(fm, f, op, parts, loc, st), check_list(op, parts, loc, env)->Ok_0.0, st,
            check_list(op, parts, loc, env)->Ok_0.1),
    decreases f, parts.len() + 4,
{
    lemma_keywords();
    crate::semantics::lemma_operator_chars();
    if op == "let"@ {
        lemma_let_sound(fm, f, parts, loc, st, env);
    } else if op == "assign"@ {
        lemma_assign_sound(fm, f, parts, loc, st, env);
    } else if op == "if"@ {
        lemma_if_sound(fm, f, parts, loc, st, env);
    } else if op == "while"@ {
        assert(check_list("while"@, parts, loc, env) == check_while(parts, loc, env));
        assert(eval_list(fm, f, "while"@, parts, loc, st) == eval_while(fm, f, parts, st));
        lemma_while_sound(fm, f, parts, st, env);
    } else if op == "print"@ || op == "not"@ || op == "length"@ {
        lemma_unary_sound(fm, f, op, parts, loc, st, env);
    } else if is_binary_op(op) || op == "and"@ || op == "or"@ || op == "concat"@ {
        lemma_binary_sound(fm, f, op, parts, loc, st, env);
    } else if op == "declare"@ {
    } else {
        lemma_call_sound(fm, f, op, parts, loc, st, env);
    }
}

/// `let` stores a value of the declared type.
proof fn lemma_let_sound(fm: FloatModel, f: nat, parts: Seq<Node>, loc: Loc, st: State, env: TypeEnvView)
    requires
        list_ready("let"@, parts, loc, st, env),
    ensures
        sound(eval_list(fm, f, "let"@, parts, loc, st), check_list("let"@, parts, loc, env)->Ok_0.0, st,
            check_list("let"@, parts, loc, env)->Ok_0.1),
    decreases f, parts.len() + 3,
{
    lemma_keywords();
    assert(check_list("let"@, parts, loc, env) == check_let(parts, loc, env));
    lemma_eval_node_sound(fm, f, parts[3], st, env);
    lemma_check_node_keeps(parts[3], env);
    let env1 = check_node(parts[3], env)->Ok_0.1;
    let ty = crate::typing::require_type(parts[2], "let: type"@)->Ok_0;
    let (r1, st1) = eval_node(fm, f, parts[3], st);
    if let Ok(v) = r1 {
        let name = parts[1]->Id_0;
        let st2 = declare_val(st1, name, v);
        let env2 = declare(env1, name, ty);
        assert(eval_list(fm, f, "let"@, parts, loc, st) == (Ok::<Val, ErrorView>(Val::Void), st2));
        let fs = st1.env.frames;
        let m2 = st2.env.frames.last();
        assert(m2 == fs.last().insert(name, v));
        assert forall|k: Seq<char>| #[trigger] frames_lookup(env2.frames, k) is Some
            implies m2.contains_key(k) && has_type(m2[k], frames_lookup(env2.frames, k)->Some_0) by {
            if k == name {
                law_lookup_after_declare(env1.frames, name, ty);
            } else {
                law_declare_keeps_other_names(env1.frames, name, ty, k);
            }
        }
    }
}

/// `assign` stores a value of the variable's type into the innermost scope.
proof fn lemma_assign_sound(fm: FloatModel, f: nat, parts: Seq<Node>, loc: Loc, st: State, env: TypeEnvView)
    requires
        list_ready("assign"@, parts, loc, st, env),
    ensures
        sound(eval_list(fm, f, "assign"@, parts, loc, st), check_list("assign"@, parts, loc, env)->Ok_0.0, st,
            check_list("assign"@, parts, loc, env)->Ok_0.1),
    decreases f, parts.len() + 3,
{
    lemma_keywords();
    assert(check_list("assign"@, parts, loc, env) == check_assign(parts, loc, env));
    lemma_eval_node_sound(fm, f, parts[2], st, env);
    lemma_check_node_keeps(parts[2], env);
    let env1 = check_node(parts[2], env)->Ok_0.1;
    let name = parts[1]->Id_0;
    let (r1, st1) = eval_node(fm, f, parts[2], st);
    if let Ok(v) = r1 {
        let fs = st1.env.frames;
        assert(frames_lookup(env.frames, name) is Some);
        assert(frames_lookup(env1.frames, name) == frames_lookup(env.frames, name));
        assert(fs.last().contains_key(name));
        assert(frames_find(fs, name) == Some((fs.len() - 1) as int));
        let fs2 = fs.update(fs.len() - 1, fs[fs.len() - 1].insert(name, v));
        let st2 = with_frames(st1, fs2);
        assert(eval_list(fm, f, "assign"@, parts, loc, st) == (Ok::<Val, ErrorView>(Val::Void), st2));
        assert(fs2.last() == fs.last().insert(name, v));
        assert forall|i: int| 0 <= i < st.env.frames.len() - 1 implies #[trigger] fs2[i] == st.env.frames[i] by {
            assert(fs[i] == st.env.frames[i]);
        }
    }
}

/// `if` runs a branch of the `if`'s type; what the branch declares is not
/// seen after it.
proof fn lemma_if_sound(fm: FloatModel, f: nat, parts: Seq<Node>, loc: Loc, st: State, env: TypeEnvView)
    requires
        list_ready("if"@, parts, loc, st, env),
    ensures
        sound(eval_list(fm, f, "if"@, parts, loc, st), check_list("if"@, parts, loc, env)->Ok_0.0, st,
            check_list("if"@, parts, loc, env)->Ok_0.1),
    decreases f, parts.len() + 3,
{
    lemma_keywords();
    assert(check_list("if"@, parts, loc, env) == check_if(parts, loc, env));
    lemma_eval_node_sound(fm, f, parts[1], st, env);
    lemma_check_node_keeps(parts[1], env);
    let env1 = check_node(parts[1], env)->Ok_0.1;
    let penv = push_scope(env1);
    let (r1, st1) = eval_node(fm, f, parts[1], st);
    if let Ok(c) = r1 {
        lemma_agrees_push(env1, st1.env.frames.last());
        lemma_eval_node_sound(fm, f, parts[2], st1, penv);
        lemma_eval_node_sound(fm, f, parts[3], st1, penv);
        lemma_check_node_keeps(parts[2], penv);
        lemma_check_node_keeps(parts[3], penv);
        let b = if c == Val::Bool(true) { parts[2] } else { parts[3] };
        let (r2, st2) = eval_node(fm, f, b, st1);
        assert(eval_list(fm, f, "if"@, parts, loc, st) == (r2, st2));
        if r2 is Ok {
            lemma_kept_trans(st, st1, st2);
            let envb = check_node(b, penv)->Ok_0.1;
            assert forall|k: Seq<char>| #[trigger] frames_lookup(env1.frames, k) is Some
                implies frames_lookup(envb.frames, k) == frames_lookup(env1.frames, k) by {
                assert(frames_lookup(penv.frames, k) == frames_lookup(env1.frames, k));
            }
            assert forall|k: Seq<char>| #[trigger] frames_lookup(env1.frames, k) is Some
                implies st2.env.frames.last().contains_key(k)
                    && has_type(st2.env.frames.last()[k], frames_lookup(env1.frames, k)->Some_0) by {
                assert(frames_lookup(envb.frames, k) == frames_lookup(env1.frames, k));
            }
        }
    }
}

/// A loop of a well-typed program ends with the void value or a runtime
/// fault; what its body declares is not seen after it.
proof fn lemma_while_sound(fm: FloatModel, f: nat, parts: Seq<Node>, st: State, env: TypeEnvView)
    requires
        parts.len() >= 2,
        check_node(parts[1], env) is Ok,
        check_node(parts[1], env)->Ok_0.0 == Type::Bool,
        check_seq(parts, 2, push_scope(check_node(parts[1], env)->Ok_0.1)) is Ok,
        env.frames.len() > 0,
        state_fits(st, env),
    ensures
        sound(eval_while(fm, f, parts, st), Type::Void, st, check_node(parts[1], env)->Ok_0.1),
    decreases f, parts.len() + 2,
{
    if f > 0 {
        lemma_eval_node_sound(fm, f, parts[1], st, env);
        lemma_check_node_keeps(parts[1], env);
        let env1 = check_node(parts[1], env)->Ok_0.1;
        let penv = push_scope(env1);
        let (r1, st1) = eval_node(fm, f, parts[1], st);
        if r1 == Ok::<Val, ErrorView>(Val::Bool(true)) {
            lemma_agrees_push(env1, st1.env.frames.last());
            lemma_seq_sound(fm, f, parts, 2, st1, penv);
            lemma_check_seq_keeps(parts, 2, penv);
            let envs = check_seq(parts, 2, penv)->Ok_0;
            let (r2, st2) = eval_seq(fm, f, parts, 2, st1);
            if r2 is Ok {
                lemma_kept_trans(st, st1, st2);
                assert forall|k: Seq<char>| #[trigger] frames_lookup(env.frames, k) is Some
                    implies st2.env.frames.last().contains_key(k)
                        && has_type(st2.env.frames.last()[k], frames_lookup(env.frames, k)->Some_0) by {
                    assert(frames_lookup(env1.frames, k) == frames_lookup(env.frames, k));
                    assert(frames_lookup(penv.frames, k) == frames_lookup(env1.frames, k));
                    assert(frames_lookup(envs.frames, k) == frames_lookup(penv.frames, k));
                }
                lemma_while_sound(fm, (f - 1) as nat, parts, st2, env);
                let st3 = eval_while(fm, (f - 1) as nat, parts, st2).1;
                if eval_while(fm, (f - 1) as nat, parts, st2).0 is Ok {
                    lemma_kept_trans(st, st2, st3);
                }
            }
        }
    }
}

/// The body items `parts[i..]` of a loop.
proof fn lemma_seq_sound(fm: FloatModel, f: nat, parts: Seq<Node>, i: int, st: State, env: TypeEnvView)
    requires
        i >= 2,
        check_seq(parts, i, env) is Ok,
        env.frames.len() > 0,
        state_fits(st, env),
    ensures
        match eval_seq(fm, f, parts, i, st) {
            (Ok(_), st2) => kept(st, st2) && scope_agrees(check_seq(parts, i, env)->Ok_0, st2.env.frames.last()),
            (Err(e), _) => is_runtime_fault(e),
        },
    decreases f, parts.len() + 2 - i,
{
    if i < parts.len() {
        lemma_eval_node_sound(fm, f, parts[i], st, env);
        lemma_check_node_keeps(parts[i], env);
        let env1 = check_node(parts[i], env)->Ok_0.1;
        let (r1, st1) = eval_node(fm, f, parts[i], st);
        if r1 is Ok {
            lemma_seq_sound(fm, f, parts, i + 1, st1, env1);
            if eval_seq(fm, f, parts, i + 1, st1).0 is Ok {
                lemma_kept_trans(st, st1, eval_seq(fm, f, parts, i + 1, st1).1);
            }
        }
    }
}

/// An arithmetic operator on two numbers of one type gives a number of that
/// type, or a division by zero or an overflow.
proof fn lemma_arith_values_sound(fm: FloatModel, op: Seq<char>, lv: Val, rv: Val, loc: Loc, ty: Type)
    requires
        op == "+"@ || op == "-"@ || op == "*"@ || op == "/"@,
        has_type(lv, ty),
        has_type(rv, ty),
        ty == Type::Int || ty == Type::Float,
    ensures
        match arith_values(fm, op, lv, rv, loc) {
            Ok(v) => has_type(v, ty),
            Err(e) => is_runtime_fault(e),
        },
{
    assert(is_runtime_fault(err_at("division by zero"@, loc)));
    assert(is_runtime_fault(err_msg(overflow_msg(op))));
}

/// `print`, `not`, `length` on an operand that checks.
proof fn lemma_unary_sound(fm: FloatModel, f: nat, op: Seq<char>, parts: Seq<Node>, loc: Loc, st: State, env: TypeEnvView)
    requires
        op == "print"@ || op == "not"@ || op == "length"@,
        list_ready(op, parts, loc, st, env),
    ensures
        sound(eval_list(fm, f, op, parts, loc, st), check_list(op, parts, loc, env)->Ok_0.0, st,
            check_list(op, parts, loc, env)->Ok_0.1),
    decreases f, parts.len() + 3,
{
    lemma_keywords();
    crate::semantics::lemma_operator_chars();
    if op == "print"@ {
        assert(check_list(op, parts, loc, env) == check_print(parts, loc, env));
    } else if op == "not"@ {
        assert(check_list(op, parts, loc, env) == check_not(parts, loc, env));
    } else {
        assert(check_list(op, parts, loc, env) == check_length(parts, loc, env));
    }
    lemma_eval_node_sound(fm, f, parts[1], st, env);
}

/// Arithmetic, comparisons, `and`, `or` and `concat` on operands that check.
proof fn lemma_binary_sound(fm: FloatModel, f: nat, op: Seq<char>, parts: Seq<Node>, loc: Loc, st: State, env: TypeEnvView)
    requires
        is_binary_op(op) || op == "and"@ || op == "or"@ || op == "concat"@,
        list_ready(op, parts, loc, st, env),
    ensures
        sound(eval_list(fm, f, op, parts, loc, st), check_list(op, parts, loc, env)->Ok_0.0, st,
            check_list(op, parts, loc, env)->Ok_0.1),
    decreases f, parts.len() + 3,
{
    lemma_keywords();
    crate::semantics::lemma_operator_chars();
    if op == "and"@ || op == "or"@ {
        assert(check_list(op, parts, loc, env) == check_logic(op, parts, loc, env));
        assert(eval_list(fm, f, op, parts, loc, st) == eval_logic(fm, f, op, parts, st));
    } else if op == "concat"@ {
        assert(check_list(op, parts, loc, env) == check_concat(parts, loc, env));
    } else {
        assert(check_list(op, parts, loc, env) == check_binary(op, parts, loc, env));
    }
    lemma_eval_node_sound(fm, f, parts[1], st, env);
    lemma_check_node_keeps(parts[1], env);
    let env1 = check_node(parts[1], env)->Ok_0.1;
    let lt = check_node(parts[1], env)->Ok_0.0;
    let (r1, st1) = eval_node(fm, f, parts[1], st);
    if let Ok(lv) = r1 {
        lemma_eval_node_sound(fm, f, parts[2], st1, env1);
        let (r2, st2) = eval_node(fm, f, parts[2], st1);
        if let Ok(rv) = r2 {
            lemma_kept_trans(st, st1, st2);
            if op == "+"@ || op == "-"@ || op == "*"@ || op == "/"@ {
                assert(eval_list(fm, f, op, parts, loc, st) == (arith_values(fm, op, lv, rv, loc), st2));
                lemma_arith_values_sound(fm, op, lv, rv, loc, lt);
            } else if op == "=="@ || op == "!="@ {
                assert(eval_list(fm, f, op, parts, loc, st) == (equality_values(fm, op, lv, rv), st2));
            } else if op == "<"@ || op == ">"@ || op == "<="@ || op == ">="@ {
                assert(eval_list(fm, f, op, parts, loc, st) == (order_values(fm, op, lv, rv), st2));
            }
        }
    }
}

/// A scope binds exactly the names of `m`, each to a value of its type there.
pub open spec fn frame_binds(frame: Map<Seq<char>, Val>, m: Map<Seq<char>, Type>) -> bool {
    &&& forall|p: Seq<char>| #[trigger] frame.contains_key(p) <==> m.contains_key(p)
    &&& forall|p: Seq<char>| #[trigger] frame.contains_key(p) ==> has_type(frame[p], m[p])
}

/// The arguments `parts[k + 1..]` of a call, bound to the parameters
/// `params[k..]` on top of `frame`, which binds `params[..k]`.
proof fn lemma_args_sound(fm: FloatModel, f: nat, name: Seq<char>, params: Seq<Seq<char>>, parts: Seq<Node>, k: int, frame: Map<Seq<char>, Val>, st: State, types: Seq<Type>, env: TypeEnvView)
    requires
        0 <= k <= params.len(),
        params.len() == types.len(),
        parts.len() == types.len() + 1,
        check_args(name, parts, k + 1, types, env) is Ok,
        env.frames.len() > 0,
        state_fits(st, env),
        frame_binds(frame, bind_all(Map::empty(), params.take(k), types)),
    ensures
        match eval_args(fm, f, params, parts, k, frame, st) {
            (Ok(fr), st2) => frame_binds(fr, bind_all(Map::empty(), params, types)) && kept(st, st2)
                && scope_agrees(check_args(name, parts, k + 1, types, env)->Ok_0, st2.env.frames.last()),
            (Err(e), _) => is_runtime_fault(e),
        },
    decreases f, parts.len() + 1 - k,
{
    if k < params.len() {
        lemma_eval_node_sound(fm, f, parts[k + 1], st, env);
        lemma_check_node_keeps(parts[k + 1], env);
        let env1 = check_node(parts[k + 1], env)->Ok_0.1;
        let (r1, st1) = eval_node(fm, f, parts[k + 1], st);
        if let Ok(v) = r1 {
            let frame1 = frame.insert(params[k], v);
            let ns = params.take(k + 1);
            assert(ns.drop_last() =~= params.take(k));
            assert(ns.last() == params[k]);
            assert(bind_all(Map::empty(), ns, types)
                == bind_all(Map::empty(), params.take(k), types).insert(params[k], types[k]));
            lemma_args_sound(fm, f, name, params, parts, k + 1, frame1, st1, types, env1);
            if eval_args(fm, f, params, parts, k + 1, frame1, st1).0 is Ok {
                lemma_kept_trans(st, st1, eval_args(fm, f, params, parts, k + 1, frame1, st1).1);
            }
        }
    } else {
        assert(params.take(k) =~= params);
    }
}

/// A call of a user function whose arguments check against its signature:
/// the body runs in a scope of its own, which holds every variable the body
/// reads, and the caller's scopes are as they were when it returns.
proof fn lemma_call_sound(fm: FloatModel, f: nat, op: Seq<char>, parts: Seq<Node>, loc: Loc, st: State, env: TypeEnvView)
    requires
        !(op == "declare"@ || op == "let"@ || op == "assign"@ || op == "if"@ || op == "while"@ || op == "print"@
            || is_binary_op(op) || op == "and"@ || op == "or"@ || op == "not"@ || op == "concat"@ || op == "length"@),
        list_ready(op, parts, loc, st, env),
    ensures
        sound(eval_list(fm, f, op, parts, loc, st), check_list(op, parts, loc, env)->Ok_0.0, st,
            check_list(op, parts, loc, env)->Ok_0.1),
    decreases f, parts.len() + 3,
{
    lemma_keywords();
    crate::semantics::lemma_operator_chars();
    assert(check_list(op, parts, loc, env) == check_call(op, parts, loc, env));
    assert(eval_list(fm, f, op, parts, loc, st) == eval_call(fm, f, op, parts, loc, st));
    let sigs = env.funs;
    let sig = sigs[op];
    if st.env.depth >= MAX_DEPTH {
        assert(is_runtime_fault(err_at("stack overflow calling "@ + quoted(op), loc)));
    } else {
        assert(sigs.contains_key(op));
        let fun = st.env.funs[op];
        assert(fun_typed(fun, sig, sigs));
        assert(fun.params.take(0) =~= Seq::<Seq<char>>::empty());
        lemma_args_sound(fm, f, op, fun.params, parts, 0, Map::empty(), st, sig.0, env);
        let (ra, st1) = eval_args(fm, f, fun.params, parts, 0, Map::empty(), st);
        if let Ok(frame) = ra {
            let benv = body_env(fun.params, sig.0, sigs);
            let bm = bind_all(Map::empty(), fun.params, sig.0);
            let inner = State {
                env: EvalEnvView { frames: st1.env.frames.push(frame), depth: st1.env.depth + 1, ..st1.env },
                ..st1
            };
            assert(inner.env.frames.last() == frame);
            assert forall|k: Seq<char>| #[trigger] frames_lookup(benv.frames, k) is Some
                implies frame.contains_key(k) && has_type(frame[k], frames_lookup(benv.frames, k)->Some_0) by {
                assert(benv.frames.last() == bm);
                assert(benv.frames.drop_last() =~= Seq::<Map<Seq<char>, Type>>::empty());
                assert(frames_lookup(benv.frames.drop_last(), k) is None);
            }
            lemma_eval_node_sound(fm, f, fun.body, inner, benv);
            let (r2, st2) = eval_node(fm, f, fun.body, inner);
            if r2 is Ok {
                let n = st1.env.frames.len();
                let res = State {
                    env: EvalEnvView { frames: st2.env.frames.drop_last(), depth: (st2.env.depth - 1) as nat, ..st2.env },
                    ..st2
                };
                assert(eval_call(fm, f, op, parts, loc, st) == (r2, res));
                assert(st2.env.frames[n - 1] == inner.env.frames[n - 1]);
                assert(res.env.frames.last() == st1.env.frames.last());
                assert forall|i: int| 0 <= i < n - 1 implies #[trigger] res.env.frames[i] == st1.env.frames[i] by {
                    assert(st2.env.frames[i] == inner.env.frames[i]);
                }
                lemma_kept_trans(st, st1, res);
            }
        }
    }
}

} // verus!

//! Properties of scopes, of the typing rules and of the program structure.
use vstd::prelude::*;

use crate::ast::Node;
use crate::env::{TypeEnvView, frames_lookup, frames_find, lemma_frames_find, lemma_frames_find_innermost};
use crate::error::Loc;
use crate::eval::env_kept;
use crate::semantics::{
    Val, State, FloatModel, id_of, assign_val, eval_node, eval_list, eval_seq, eval_while, eval_args, eval_call,
    eval_bool,
};
use crate::typing::{
    Pending, check_forms, typecheck_program, check_top, check_defun, check_node, check_list, head_of, items_of,
    declared_signature,
};

verus! {

/// The name a `declare` or `defun` form gives: its second item.
pub open spec fn form_name(e: Node) -> Seq<char> {
    id_of(items_of(e)[1])
}

/// Whether `pending` is the declaration made by the form just before `i`.
pub open spec fn pending_matches(program: Seq<Node>, i: int, pending: Option<Pending>) -> bool {
    match pending {
        Some(p) => 0 < i && head_of(program[i - 1]) == Some("declare"@) && p.name == form_name(program[i - 1]),
        None => !(0 < i && head_of(program[i - 1]) == Some("declare"@)),
    }
}

/// What one top-level form does to the pending declaration.
proof fn lemma_top_pending(e: Node, env: TypeEnvView, pending: Option<Pending>)
    requires
        check_top(e, env, pending) is Ok,
    ensures
        ({
            let pending1 = check_top(e, env, pending)->Ok_0.1;
            if head_of(e) == Some("declare"@) {
                pending is None && pending1 is Some && pending1->Some_0.name == form_name(e)
            } else if head_of(e) == Some("defun"@) {
                pending is Some && pending->Some_0.name == form_name(e) && pending1 is None
            } else {
                pending is None && pending1 is None
            }
        }),
{
    if head_of(e) == Some("declare"@) {
        let (name, params, ret) = declared_signature(e)->Ok_0;
        assert(name == form_name(e));
    } else if head_of(e) == Some("defun"@) {
        assert(check_defun(e, env, pending) is Ok);
    }
}

/// Walking the forms from `i`: each `declare` is followed by its `defun`,
/// each `defun` preceded by its `declare`.
proof fn lemma_forms_pairing(program: Seq<Node>, i: int, env: TypeEnvView, pending: Option<Pending>)
    requires
        0 <= i <= program.len(),
        check_forms(program, i, env, pending) is Ok,
        pending_matches(program, i, pending),
    ensures
        forall|j: int| i <= j < program.len() && head_of(#[trigger] program[j]) == Some("declare"@)
            ==> j + 1 < program.len() && head_of(program[j + 1]) == Some("defun"@)
                && form_name(program[j]) == form_name(program[j + 1]),
        forall|j: int| i <= j < program.len() && head_of(#[trigger] program[j]) == Some("defun"@)
            ==> 0 < j && head_of(program[j - 1]) == Some("declare"@)
                && form_name(program[j - 1]) == form_name(program[j]),
        pending is Some ==> i < program.len(),
    decreases program.len() - i,
{
    if i < program.len() {
        let e = program[i];
        assert(check_top(e, env, pending) is Ok);
        let (env1, pending1) = check_top(e, env, pending)->Ok_0;
        lemma_top_pending(e, env, pending);
        assert(check_forms(program, i + 1, env1, pending1) is Ok);
        assert(pending_matches(program, i + 1, pending1));
        lemma_forms_pairing(program, i + 1, env1, pending1);
    }
}

/// In a well-typed program every `declare` is immediately followed by the
/// `defun` of the same name, and every `defun` immediately preceded by the
/// `declare` of the same name.
pub proof fn law_declare_precedes_defun(program: Seq<Node>)
    requires
        typecheck_program(program) is Ok,
    ensures
        forall|j: int| 0 <= j < program.len() && head_of(#[trigger] program[j]) == Some("declare"@)
            ==> j + 1 < program.len() && head_of(program[j + 1]) == Some("defun"@)
                && form_name(program[j]) == form_name(program[j + 1]),
        forall|j: int| 0 <= j < program.len() && head_of(#[trigger] program[j]) == Some("defun"@)
            ==> 0 < j && head_of(program[j - 1]) == Some("declare"@)
                && form_name(program[j - 1]) == form_name(program[j]),
{
    let sigs = crate::typing::collect_signatures(program)->Ok_0;
    let env = TypeEnvView { frames: seq![Map::<Seq<char>, crate::types::Type>::empty()], funs: sigs };
    lemma_forms_pairing(program, 0, env, None);
}

/* -- Scopes ----------------------------------------------------------------- */

/// A name declared in the innermost scope is read back with the value it was
/// declared with.
pub proof fn law_lookup_after_declare<V>(frames: Seq<Map<Seq<char>, V>>, k: Seq<char>, v: V)
    requires
        frames.len() > 0,
    ensures
        frames_lookup(frames.update(frames.len() - 1, frames.last().insert(k, v)), k) == Some(v),
{
    let fs = frames.update(frames.len() - 1, frames.last().insert(k, v));
    assert(fs.last() == frames.last().insert(k, v));
}

/// Declaring a name leaves what every other name reads.
pub proof fn law_declare_keeps_other_names<V>(frames: Seq<Map<Seq<char>, V>>, k: Seq<char>, v: V, other: Seq<char>)
    requires
        frames.len() > 0,
        other != k,
    ensures
        frames_lookup(frames.update(frames.len() - 1, frames.last().insert(k, v)), other) == frames_lookup(frames, other),
{
    let fs = frames.update(frames.len() - 1, frames.last().insert(k, v));
    assert(fs.drop_last() =~= frames.drop_last());
}

/// A name of an inner scope hides the same name of the outer scopes.
pub proof fn law_inner_scope_hides<V>(frames: Seq<Map<Seq<char>, V>>, m: Map<Seq<char>, V>, k: Seq<char>)
    ensures
        frames_lookup(frames.push(m), k) == if m.contains_key(k) { Some(m[k]) } else { frames_lookup(frames, k) },
{
    assert(frames.push(m).drop_last() =~= frames);
}

/// Leaving a scope undoes entering it.
pub proof fn law_pop_undoes_push<V>(frames: Seq<Map<Seq<char>, V>>, m: Map<Seq<char>, V>)
    ensures
        frames.push(m).drop_last() == frames,
{
    assert(frames.push(m).drop_last() =~= frames);
}

/// An assignment succeeds exactly when some scope holds the name, and the
/// name then reads the assigned value.
pub proof fn law_assign_then_lookup(frames: Seq<Map<Seq<char>, Val>>, k: Seq<char>, v: Val, loc: Loc)
    ensures
        assign_val(frames, k, v, loc) is Ok <==> frames_lookup(frames, k) is Some,
        assign_val(frames, k, v, loc) matches Ok(fs) ==> frames_lookup(fs, k) == Some(v) && fs.len() == frames.len(),
{
    lemma_frames_find(frames, k);
    if let Some(i) = frames_find(frames, k) {
        lemma_frames_find_innermost(frames, k);
        let fs = frames.update(i, frames[i].insert(k, v));
        assert forall|j: int| i < j < fs.len() implies !(#[trigger] fs[j]).contains_key(k) by {
            assert(fs[j] == frames[j]);
        }
        lemma_lookup_in_scope(fs, i, k);
    }
}

/// When the innermost scope holding `k` is the `i`th, `k` reads its value there.
proof fn lemma_lookup_in_scope(fs: Seq<Map<Seq<char>, Val>>, i: int, k: Seq<char>)
    requires
        0 <= i < fs.len(),
        fs[i].contains_key(k),
        forall|j: int| i < j < fs.len() ==> !(#[trigger] fs[j]).contains_key(k),
    ensures
        frames_lookup(fs, k) == Some(fs[i][k]),
    decreases fs.len(),
{
    if i < fs.len() - 1 {
        assert(!fs[fs.len() - 1].contains_key(k));
        let d = fs.drop_last();
        assert forall|j: int| i < j < d.len() implies !(#[trigger] d[j]).contains_key(k) by {
            assert(d[j] == fs[j]);
        }
        lemma_lookup_in_scope(d, i, k);
    }
}

/* -- Typing rules ----------------------------------------------------------- */

/// Both branches of a well-typed `if` have the type of the `if`, and its
/// condition is a bool; what the branches declare does not outlive them.
pub proof fn law_if_branches_same_type(parts: Seq<Node>, loc: Loc, env: TypeEnvView)
    requires
        parts.len() > 0,
        parts[0] is Id && parts[0]->Id_0 == "if"@,
        check_node(Node::List(parts, loc), env) is Ok,
    ensures
        ({
            let t = check_node(Node::List(parts, loc), env)->Ok_0.0;
            let env1 = check_node(parts[1], env)->Ok_0.1;
            &&& parts.len() == 4
            &&& check_node(parts[1], env) matches Ok((c, _)) && c == crate::types::Type::Bool
            &&& check_node(parts[2], crate::typing::push_scope(env1)) matches Ok((a, _)) && a == t
            &&& check_node(parts[3], crate::typing::push_scope(env1)) matches Ok((b, _)) && b == t
            &&& check_node(Node::List(parts, loc), env)->Ok_0.1 == env1
        }),
{
    crate::typing::lemma_keywords();
    assert(check_list("if"@, parts, loc, env) == crate::typing::check_if(parts, loc, env));
}

/// A variable's type never changes: a well-typed `assign` gives the variable
/// a value of the type it already has.
pub proof fn law_assign_keeps_type(parts: Seq<Node>, loc: Loc, env: TypeEnvView)
    requires
        parts.len() > 0,
        parts[0] is Id && parts[0]->Id_0 == "assign"@,
        check_node(Node::List(parts, loc), env) is Ok,
    ensures
        parts.len() == 3,
        parts[1] is Id,
        frames_lookup(env.frames, parts[1]->Id_0) matches Some(t)
            && check_node(parts[2], env) matches Ok((v, _)) && v == t,
        check_node(Node::List(parts, loc), env)->Ok_0.0 == crate::types::Type::Void,
{
    crate::typing::lemma_keywords();
    assert(check_list("assign"@, parts, loc, env) == crate::typing::check_assign(parts, loc, env));
}

/// Only a value that is not void can be printed, and printing is void.
pub proof fn law_print_takes_a_value(parts: Seq<Node>, loc: Loc, env: TypeEnvView)
    requires
        parts.len() > 0,
        parts[0] is Id && parts[0]->Id_0 == "print"@,
        check_node(Node::List(parts, loc), env) is Ok,
    ensures
        parts.len() == 2,
        check_node(parts[1], env) matches Ok((t, _)) && t != crate::types::Type::Void,
        check_node(Node::List(parts, loc), env)->Ok_0.0 == crate::types::Type::Void,
{
    crate::typing::lemma_keywords();
    assert(check_list("print"@, parts, loc, env) == crate::typing::check_print(parts, loc, env));
}

/* -- Type errors carry a position ------------------------------------------- */

proof fn lemma_node_located(e: Node, env: TypeEnvView)
    ensures
        check_node(e, env) matches Err(err) ==> err.loc is Some,
    decreases e, 0int,
{
    if let Node::List(parts, loc) = e {
        if parts.len() > 0 {
            if let Node::Id(op, _) = parts[0] {
                lemma_list_located(op, parts, loc, env);
            }
        }
    }
}

proof fn lemma_list_located(op: Seq<char>, parts: Seq<Node>, loc: Loc, env: TypeEnvView)
    ensures
        check_list(op, parts, loc, env) matches Err(err) ==> err.loc is Some,
    decreases parts, parts.len() + 3,
{
    crate::typing::lemma_keywords();
    crate::semantics::lemma_operator_chars();
    if parts.len() > 1 {
        lemma_node_located(parts[1], env);
        let env1 = check_node(parts[1], env)->Ok_0.1;
        if parts.len() > 2 {
            lemma_node_located(parts[2], env);
            lemma_node_located(parts[2], env1);
            lemma_node_located(parts[2], crate::typing::push_scope(env1));
            let env2 = check_node(parts[2], env1)->Ok_0.1;
            if parts.len() > 3 {
                lemma_node_located(parts[3], env);
                lemma_node_located(parts[3], env2);
                lemma_node_located(parts[3], crate::typing::push_scope(env1));
            }
        }
        lemma_seq_located(parts, 2, env1);
        lemma_seq_located(parts, 2, crate::typing::push_scope(env1));
    }
    if env.funs.contains_key(op) {
        lemma_args_located(op, parts, 1, env.funs[op].0, env);
    }
}

proof fn lemma_seq_located(parts: Seq<Node>, i: int, env: TypeEnvView)
    ensures
        crate::typing::check_seq(parts, i, env) matches Err(err) ==> err.loc is Some,
    decreases parts, parts.len() + 1 - i,
{
    if 1 <= i < parts.len() {
        lemma_node_located(parts[i], env);
        lemma_seq_located(parts, i + 1, check_node(parts[i], env)->Ok_0.1);
    }
}

proof fn lemma_args_located(name: Seq<char>, parts: Seq<Node>, i: int, params: Seq<crate::types::Type>, env: TypeEnvView)
    ensures
        crate::typing::check_args(name, parts, i, params, env) matches Err(err) ==> err.loc is Some,
    decreases parts, parts.len() + 1 - i,
{
    if 1 <= i < parts.len() {
        lemma_node_located(parts[i], env);
        lemma_args_located(name, parts, i + 1, params, check_node(parts[i], env)->Ok_0.1);
    }
}

proof fn lemma_types_located(items: Seq<Node>)
    ensures
        crate::typing::parse_types(items) matches Err(err) ==> err.loc is Some,
    decreases items.len(),
{
    if items.len() > 0 {
        lemma_types_located(items.drop_last());
    }
}

proof fn lemma_names_located(items: Seq<Node>)
    ensures
        crate::typing::parse_names(items) matches Err(err) ==> err.loc is Some,
    decreases items.len(),
{
    if items.len() > 0 {
        lemma_names_located(items.drop_last());
    }
}

proof fn lemma_collect_located(program: Seq<Node>)
    ensures
        crate::typing::collect_signatures(program) matches Err(err) ==> err.loc is Some,
    decreases program.len(),
{
    if program.len() > 0 {
        lemma_collect_located(program.drop_last());
        let e = program.last();
        lemma_types_located(items_of(items_of(e)[2]));
    }
}

proof fn lemma_forms_located(program: Seq<Node>, i: int, env: TypeEnvView, pending: Option<Pending>)
    ensures
        check_forms(program, i, env, pending) matches Err(err) ==> err.loc is Some,
    decreases program.len() - i,
{
    if i < program.len() {
        let e = program[i];
        lemma_types_located(items_of(items_of(e)[2]));
        lemma_node_located(e, env);
        let parts = items_of(e);
        lemma_names_located(items_of(parts[2]));
        if let Some(p) = pending {
            if let Ok(names) = crate::typing::parse_param_names(parts[2]) {
                lemma_node_located(parts[3], crate::typing::body_env(names, p.params, env.funs));
            }
        }
        if check_top(e, env, pending) is Ok {
            let (env1, pending1) = check_top(e, env, pending)->Ok_0;
            lemma_forms_located(program, i + 1, env1, pending1);
        }
    }
}

/// Every type error carries the source position it is about.
pub proof fn law_type_errors_are_located(program: Seq<Node>)
    ensures
        typecheck_program(program) matches Err(err) ==> err.loc is Some,
{
    lemma_collect_located(program);
    if let Ok(sigs) = crate::typing::collect_signatures(program) {
        lemma_forms_located(program, 0, TypeEnvView { frames: seq![Map::<Seq<char>, crate::types::Type>::empty()], funs: sigs }, None);
    }
}

/* -- Scopes opened and closed ----------------------------------------------- */

/// The scopes after declaring each `(name, value)` of `decls` in turn in the
/// innermost scope.
pub open spec fn declare_all<V>(frames: Seq<Map<Seq<char>, V>>, decls: Seq<(Seq<char>, V)>) -> Seq<Map<Seq<char>, V>>
    decreases decls.len(),
{
    if decls.len() == 0 {
        frames
    } else {
        let fs = declare_all(frames, decls.drop_last());
        fs.update(fs.len() - 1, fs.last().insert(decls.last().0, decls.last().1))
    }
}

/// Opening a scope, declaring any names in it and closing it again leaves
/// the outer scopes, and so every lookup, as they were.
pub proof fn law_pop_after_declares_restores<V>(frames: Seq<Map<Seq<char>, V>>, m: Map<Seq<char>, V>, decls: Seq<(Seq<char>, V)>)
    ensures
        declare_all(frames.push(m), decls).len() == frames.len() + 1,
        declare_all(frames.push(m), decls).drop_last() == frames,
        forall|k: Seq<char>| #[trigger] frames_lookup(declare_all(frames.push(m), decls).drop_last(), k) == frames_lookup(frames, k),
    decreases decls.len(),
{
    if decls.len() > 0 {
        law_pop_after_declares_restores(frames, m, decls.drop_last());
        let fs = declare_all(frames.push(m), decls.drop_last());
        let fs2 = declare_all(frames.push(m), decls);
        assert(fs2.drop_last() =~= fs.drop_last());
    } else {
        assert(frames.push(m).drop_last() =~= frames);
    }
}


/* -- Evaluation restores the scopes ----------------------------------------- */

/// Evaluating an expression restores the scopes, the functions and the call
/// depth, whatever it gives, a value or an error: each call removes the
/// scope it added for its callee and lowers the call depth again, also when
/// the callee's body fails.
pub proof fn law_evaluation_restores_scopes(fm: FloatModel, fuel: nat, e: Node, st: State)
    requires
        st.env.frames.len() > 0,
    ensures
        env_kept(st.env, eval_node(fm, fuel, e, st).1.env),
    decreases fuel, 0int,
{
    if fuel > 0 {
        let f = (fuel - 1) as nat;
        if let Node::List(parts, loc) = e {
            if parts.len() > 0 {
                if let Node::Id(op, _) = parts[0] {
                    lemma_list_restores(fm, f, op, parts, loc, st);
                }
            }
        }
    }
}

/// A call of a user function restores the caller's scopes, the functions
/// and the call depth, whether its arguments or its body succeed or fail.
pub proof fn law_calls_restore_scopes(fm: FloatModel, f: nat, name: Seq<char>, parts: Seq<Node>, loc: Loc, st: State)
    requires
        st.env.frames.len() > 0,
    ensures
        env_kept(st.env, eval_call(fm, f, name, parts, loc, st).1.env),
    decreases f, parts.len() + 2,
{
    if st.env.depth < crate::semantics::MAX_DEPTH && st.env.funs.contains_key(name) {
        let fun = st.env.funs[name];
        lemma_args_restore(fm, f, fun.params, parts, 0, Map::empty(), st);
        let (a, st1) = eval_args(fm, f, fun.params, parts, 0, Map::empty(), st);
        if let Ok(frame) = a {
            let inner = State {
                env: crate::semantics::EvalEnvView {
                    frames: st1.env.frames.push(frame),
                    depth: st1.env.depth + 1,
                    ..st1.env
                },
                ..st1
            };
            law_evaluation_restores_scopes(fm, f, fun.body, inner);
        }
    }
}

proof fn lemma_args_restore(fm: FloatModel, f: nat, params: Seq<Seq<char>>, parts: Seq<Node>, k: int, frame: Map<Seq<char>, Val>, st: State)
    requires
        st.env.frames.len() > 0,
    ensures
        env_kept(st.env, eval_args(fm, f, params, parts, k, frame, st).1.env),
    decreases f, parts.len() + 1 - k,
{
    if !(k < 0 || k >= params.len() || k + 1 >= parts.len()) {
        law_evaluation_restores_scopes(fm, f, parts[k + 1], st);
        let (r, st1) = eval_node(fm, f, parts[k + 1], st);
        if let Ok(v) = r {
            lemma_args_restore(fm, f, params, parts, k + 1, frame.insert(params[k], v), st1);
        }
    }
}

proof fn lemma_seq_restores(fm: FloatModel, f: nat, parts: Seq<Node>, i: int, st: State)
    requires
        st.env.frames.len() > 0,
    ensures
        env_kept(st.env, eval_seq(fm, f, parts, i, st).1.env),
    decreases f, parts.len() + 2 - i,
{
    if !(i < 2 || i >= parts.len()) {
        law_evaluation_restores_scopes(fm, f, parts[i], st);
        let (r, st1) = eval_node(fm, f, parts[i], st);
        if r is Ok {
            lemma_seq_restores(fm, f, parts, i + 1, st1);
        }
    }
}

proof fn lemma_while_restores(fm: FloatModel, f: nat, parts: Seq<Node>, st: State)
    requires
        st.env.frames.len() > 0,
    ensures
        env_kept(st.env, eval_while(fm, f, parts, st).1.env),
    decreases f, parts.len() + 2,
{
    if f > 0 {
        law_evaluation_restores_scopes(fm, f, parts[1], st);
        let (r, st1) = eval_node(fm, f, parts[1], st);
        if r == Ok::<Val, crate::error::ErrorView>(Val::Bool(true)) {
            lemma_seq_restores(fm, f, parts, 2, st1);
            let (r2, st2) = eval_seq(fm, f, parts, 2, st1);
            if r2 is Ok {
                lemma_while_restores(fm, (f - 1) as nat, parts, st2);
            }
        }
    }
}

proof fn lemma_list_restores(fm: FloatModel, f: nat, op: Seq<char>, parts: Seq<Node>, loc: Loc, st: State)
    requires
        st.env.frames.len() > 0,
    ensures
        env_kept(st.env, eval_list(fm, f, op, parts, loc, st).1.env),
    decreases f, parts.len() + 4,
{
    if op == "declare"@ {
    } else if op == "let"@ {
        law_evaluation_restores_scopes(fm, f, parts[3], st);
    } else if op == "assign"@ {
        law_evaluation_restores_scopes(fm, f, parts[2], st);
        lemma_frames_find(eval_node(fm, f, parts[2], st).1.env.frames, id_of(parts[1]));
    } else if op == "if"@ {
        law_evaluation_restores_scopes(fm, f, parts[1], st);
        let st1 = eval_node(fm, f, parts[1], st).1;
        law_evaluation_restores_scopes(fm, f, parts[2], st1);
        law_evaluation_restores_scopes(fm, f, parts[3], st1);
    } else if op == "while"@ {
        lemma_while_restores(fm, f, parts, st);
    } else if op == "print"@ {
        law_evaluation_restores_scopes(fm, f, parts[1], st);
    } else if op == "+"@ || op == "-"@ || op == "*"@ || op == "/"@ || op == "=="@ || op == "!="@
        || op == "<"@ || op == ">"@ || op == "<="@ || op == ">="@ {
        law_evaluation_restores_scopes(fm, f, parts[1], st);
        law_evaluation_restores_scopes(fm, f, parts[2], eval_node(fm, f, parts[1], st).1);
    } else if op == "and"@ || op == "or"@ {
        law_evaluation_restores_scopes(fm, f, parts[1], st);
        let st1 = eval_bool(fm, f, parts[1], op, st).1;
        assert(st1 == eval_node(fm, f, parts[1], st).1);
        law_evaluation_restores_scopes(fm, f, parts[2], st1);
        assert(eval_bool(fm, f, parts[2], op, st1).1 == eval_node(fm, f, parts[2], st1).1);
    } else if op == "not"@ {
        law_evaluation_restores_scopes(fm, f, parts[1], st);
    } else if op == "concat"@ {
        law_evaluation_restores_scopes(fm, f, parts[1], st);
        law_evaluation_restores_scopes(fm, f, parts[2], eval_node(fm, f, parts[1], st).1);
    } else if op == "length"@ {
        law_evaluation_restores_scopes(fm, f, parts[1], st);
    } else {
        law_calls_restore_scopes(fm, f, op, parts, loc, st);
    }
}

/// A call made when the most calls are already in progress fails with the
/// stack overflow error at the call's position, before any argument is
/// evaluated, and changes nothing.
pub proof fn law_call_at_the_depth_limit(fm: FloatModel, f: nat, name: Seq<char>, parts: Seq<Node>, loc: Loc, st: State)
    requires
        st.env.depth >= crate::semantics::MAX_DEPTH,
    ensures
        eval_call(fm, f, name, parts, loc, st)
            == (Err::<Val, crate::error::ErrorView>(crate::error::err_at("stack overflow calling "@ + crate::typing::quoted(name), loc)), st),
{
}

/// Dividing an int by zero fails with the division-by-zero error at the
/// division's position.
pub proof fn law_int_division_by_zero(fm: FloatModel, a: i64, loc: Loc)
    ensures
        crate::semantics::arith_values(fm, "/"@, Val::Int(a), Val::Int(0), loc)
            == Err::<Val, crate::error::ErrorView>(crate::error::err_at("division by zero"@, loc)),
{
}

} // verus!

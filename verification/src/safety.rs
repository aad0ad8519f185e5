//! Type soundness of whole programs.
use vstd::prelude::*;

use crate::ast::{Node, loc_of};
use crate::env::{TypeEnvView, frames_lookup};
use crate::laws::{form_name, law_declare_precedes_defun};
use crate::semantics::{
    FloatModel, State, EvalEnvView, Val, program_shaped, defun_params, defun_function, register_functions,
    run_forms, run_program, eval_node,
};
use crate::soundness::{
    scope_agrees, state_fits, fun_typed, funs_typed, is_runtime_fault, lemma_eval_node_sound, lemma_check_node_keeps,
};
use crate::types::Type;
use crate::typing::{
    Pending, check_node, check_defun, check_top, check_forms, typecheck_program, head_of, items_of,
    declared_signature, parse_param_names, parse_names, collect_signatures, body_env, lemma_keywords,
};
use crate::well_typed::lemma_checked_program_shaped;

verus! {

/// The declaration a `declare` form makes, waiting for its `defun`.
pub open spec fn pending_from(e: Node) -> Pending {
    let sig = declared_signature(e)->Ok_0;
    Pending { name: sig.0, params: sig.1, ret: sig.2, loc: loc_of(e) }
}

/// The pending declaration when the checker reaches form `i`.
pub open spec fn pending_at(program: Seq<Node>, i: int, pending: Option<Pending>) -> bool {
    pending matches Some(p) ==> 0 < i && head_of(program[i - 1]) == Some("declare"@)
        && declared_signature(program[i - 1]) is Ok && p == pending_from(program[i - 1])
}

/// The `defun` at `k` was checked against the declaration before it, with
/// the signatures `sigs`.
pub open spec fn defun_checked(program: Seq<Node>, k: int, sigs: Map<Seq<char>, (Seq<Type>, Type)>) -> bool {
    &&& 0 < k
    &&& head_of(program[k - 1]) == Some("declare"@)
    &&& declared_signature(program[k - 1]) is Ok
    &&& exists|env: TypeEnvView| env.funs == sigs
            && #[trigger] check_defun(program[k], env, Some(pending_from(program[k - 1]))) is Ok
}

/// One step of the checker over the forms keeps its one scope and its
/// signatures, and its pending declaration the one of the form before.
proof fn lemma_top_step(program: Seq<Node>, i: int, env: TypeEnvView, pending: Option<Pending>)
    requires
        0 <= i < program.len(),
        check_top(program[i], env, pending) is Ok,
        env.frames.len() == 1,
        pending_at(program, i, pending),
    ensures
        check_top(program[i], env, pending)->Ok_0.0.frames.len() == 1,
        check_top(program[i], env, pending)->Ok_0.0.funs == env.funs,
        pending_at(program, i + 1, check_top(program[i], env, pending)->Ok_0.1),
        head_of(program[i]) == Some("defun"@) ==> defun_checked(program, i, env.funs),
        (head_of(program[i]) != Some("declare"@) && head_of(program[i]) != Some("defun"@))
            ==> check_node(program[i], env) is Ok
                && check_top(program[i], env, pending)->Ok_0.0 == check_node(program[i], env)->Ok_0.1,
{
    let e = program[i];
    lemma_keywords();
    if head_of(e) == Some("declare"@) {
        assert(declared_signature(e) is Ok);
        assert(check_top(e, env, pending)->Ok_0.1 == Some(pending_from(e)));
    } else if head_of(e) == Some("defun"@) {
        assert(check_defun(e, env, pending) is Ok);
        assert(check_defun(program[i], env, Some(pending_from(program[i - 1]))) is Ok);
        assert(defun_checked(program, i, env.funs));
    } else {
        lemma_check_node_keeps(e, env);
    }
}

/// Walking the forms: every `defun` from `i` on was checked against its
/// declaration.
proof fn lemma_forms_walk(program: Seq<Node>, i: int, env: TypeEnvView, pending: Option<Pending>)
    requires
        0 <= i <= program.len(),
        check_forms(program, i, env, pending) is Ok,
        env.frames.len() == 1,
        pending_at(program, i, pending),
    ensures
        forall|k: int| i <= k < program.len() && head_of(#[trigger] program[k]) == Some("defun"@)
            ==> defun_checked(program, k, env.funs),
    decreases program.len() - i,
{
    if i < program.len() {
        lemma_top_step(program, i, env, pending);
        let (env1, pending1) = check_top(program[i], env, pending)->Ok_0;
        lemma_forms_walk(program, i + 1, env1, pending1);
    }
}

/// The last `declare` of a name gives its collected signature.
proof fn lemma_collect_last(program: Seq<Node>, n: Seq<char>) -> (j: int)
    requires
        collect_signatures(program) is Ok,
        collect_signatures(program)->Ok_0.contains_key(n),
    ensures
        0 <= j < program.len(),
        head_of(program[j]) == Some("declare"@),
        declared_signature(program[j]) is Ok,
        declared_signature(program[j])->Ok_0.0 == n,
        form_name(program[j]) == n,
        collect_signatures(program)->Ok_0[n]
            == (declared_signature(program[j])->Ok_0.1, declared_signature(program[j])->Ok_0.2),
        forall|m: int| j < m < program.len() && head_of(#[trigger] program[m]) == Some("declare"@)
            ==> form_name(program[m]) != n,
    decreases program.len(),
{
    let e = program.last();
    let prefix = program.drop_last();
    if head_of(e) == Some("declare"@) && declared_signature(e)->Ok_0.0 == n {
        program.len() - 1
    } else {
        let j = lemma_collect_last(prefix, n);
        assert(prefix[j] == program[j]);
        assert forall|m: int| j < m < program.len() && head_of(#[trigger] program[m]) == Some("declare"@)
            implies form_name(program[m]) != n by {
            if m < program.len() - 1 {
                assert(prefix[m] == program[m]);
            } else {
                assert(declared_signature(e) is Ok);
            }
        }
        j
    }
}

/// The parameter names a `defun` registers are the ones the checker read.
proof fn lemma_defun_params(items: Seq<Node>)
    requires
        parse_names(items) is Ok,
    ensures
        defun_params(items) == parse_names(items),
    decreases items.len(),
{
    if items.len() > 0 {
        lemma_defun_params(items.drop_last());
    }
}

/// Every `defun` of the program can be registered, so the program's
/// functions can.
proof fn lemma_register_ok(program: Seq<Node>)
    requires
        forall|m: int| 0 <= m < program.len() && head_of(#[trigger] program[m]) == Some("defun"@)
            ==> defun_function(items_of(program[m])) is Ok,
    ensures
        register_functions(program) is Ok,
    decreases program.len(),
{
    if program.len() > 0 {
        let prefix = program.drop_last();
        assert forall|m: int| 0 <= m < prefix.len() && head_of(#[trigger] prefix[m]) == Some("defun"@)
            implies defun_function(items_of(prefix[m])) is Ok by {
            assert(prefix[m] == program[m]);
        }
        lemma_register_ok(prefix);
        assert(head_of(program[program.len() - 1]) == Some("defun"@) ==> defun_function(items_of(program.last())) is Ok);
    }
}

/// The last `defun` of a name gives its registered function.
proof fn lemma_register_last(program: Seq<Node>, k: int)
    requires
        forall|m: int| 0 <= m < program.len() && head_of(#[trigger] program[m]) == Some("defun"@)
            ==> defun_function(items_of(program[m])) is Ok && defun_function(items_of(program[m]))->Ok_0.0 == form_name(program[m]),
        0 <= k < program.len(),
        head_of(program[k]) == Some("defun"@),
        forall|m: int| k < m < program.len() && head_of(#[trigger] program[m]) == Some("defun"@)
            ==> form_name(program[m]) != form_name(program[k]),
    ensures
        register_functions(program) is Ok,
        register_functions(program)->Ok_0.contains_key(form_name(program[k])),
        register_functions(program)->Ok_0[form_name(program[k])] == defun_function(items_of(program[k]))->Ok_0.1,
    decreases program.len(),
{
    let prefix = program.drop_last();
    assert forall|m: int| 0 <= m < prefix.len() && head_of(#[trigger] prefix[m]) == Some("defun"@)
        implies defun_function(items_of(prefix[m])) is Ok && defun_function(items_of(prefix[m]))->Ok_0.0 == form_name(prefix[m]) by {
        assert(prefix[m] == program[m]);
    }
    assert(head_of(program[program.len() - 1]) == Some("defun"@) ==> defun_function(items_of(program.last())) is Ok);
    lemma_register_ok(prefix);
    if k < program.len() - 1 {
        assert(prefix[k] == program[k]);
        assert forall|m: int| k < m < prefix.len() && head_of(#[trigger] prefix[m]) == Some("defun"@)
            implies form_name(prefix[m]) != form_name(prefix[k]) by {
            assert(prefix[m] == program[m]);
        }
        lemma_register_last(prefix, k);
    }
}

/// Every `declare` of a program whose signatures can be collected is among
/// them.
proof fn lemma_collect_has(program: Seq<Node>, j: int)
    requires
        collect_signatures(program) is Ok,
        0 <= j < program.len(),
        head_of(program[j]) == Some("declare"@),
    ensures
        collect_signatures(program)->Ok_0.contains_key(form_name(program[j])),
    decreases program.len(),
{
    let prefix = program.drop_last();
    if j < program.len() - 1 {
        assert(prefix[j] == program[j]);
        lemma_collect_has(prefix, j);
    } else {
        assert(declared_signature(program.last()) is Ok);
    }
}

/// The collected signatures are exactly those of the declared names, each
/// given by the last `declare` of its name.
pub proof fn law_collect_signatures(program: Seq<Node>)
    requires
        collect_signatures(program) is Ok,
    ensures
        forall|n: Seq<char>| #[trigger] collect_signatures(program)->Ok_0.contains_key(n)
            <==> exists|j: int| 0 <= j < program.len() && head_of(program[j]) == Some("declare"@)
                && form_name(#[trigger] program[j]) == n,
        forall|n: Seq<char>| #[trigger] collect_signatures(program)->Ok_0.contains_key(n)
            ==> exists|j: int| 0 <= j < program.len() && head_of(#[trigger] program[j]) == Some("declare"@)
                && form_name(program[j]) == n
                && collect_signatures(program)->Ok_0[n]
                    == (declared_signature(program[j])->Ok_0.1, declared_signature(program[j])->Ok_0.2)
                && forall|m: int| j < m < program.len() && head_of(#[trigger] program[m]) == Some("declare"@)
                    ==> form_name(program[m]) != n,
{
    let sigs = collect_signatures(program)->Ok_0;
    assert forall|n: Seq<char>| #[trigger] sigs.contains_key(n)
        <==> exists|j: int| 0 <= j < program.len() && head_of(program[j]) == Some("declare"@)
            && form_name(#[trigger] program[j]) == n by {
        if sigs.contains_key(n) {
            let j = lemma_collect_last(program, n);
            assert(form_name(program[j]) == n);
        }
        if exists|j: int| 0 <= j < program.len() && head_of(program[j]) == Some("declare"@)
            && form_name(#[trigger] program[j]) == n {
            let j = choose|j: int| 0 <= j < program.len() && head_of(program[j]) == Some("declare"@)
                && form_name(#[trigger] program[j]) == n;
            lemma_collect_has(program, j);
        }
    }
    assert forall|n: Seq<char>| #[trigger] sigs.contains_key(n)
        implies exists|j: int| 0 <= j < program.len() && head_of(#[trigger] program[j]) == Some("declare"@)
            && form_name(program[j]) == n
            && sigs[n] == (declared_signature(program[j])->Ok_0.1, declared_signature(program[j])->Ok_0.2)
            && forall|m: int| j < m < program.len() && head_of(#[trigger] program[m]) == Some("declare"@)
                ==> form_name(program[m]) != n by {
        let j = lemma_collect_last(program, n);
        assert(head_of(program[j]) == Some("declare"@));
    }
}

/// A `defun` checked against its declaration defines a function that fits
/// the declared signature.
proof fn lemma_defun_typed(program: Seq<Node>, k: int, sigs: Map<Seq<char>, (Seq<Type>, Type)>)
    requires
        0 < k < program.len(),
        head_of(program[k]) == Some("defun"@),
        defun_checked(program, k, sigs),
    ensures
        defun_function(items_of(program[k])) is Ok,
        defun_function(items_of(program[k]))->Ok_0.0 == form_name(program[k]),
        fun_typed(
            defun_function(items_of(program[k]))->Ok_0.1,
            (pending_from(program[k - 1]).params, pending_from(program[k - 1]).ret),
            sigs,
        ),
{
    let e = program[k];
    let p = pending_from(program[k - 1]);
    let env = choose|env: TypeEnvView| env.funs == sigs
        && #[trigger] check_defun(program[k], env, Some(pending_from(program[k - 1]))) is Ok;
    let parts = items_of(e);
    let names = parse_param_names(parts[2])->Ok_0;
    lemma_defun_params(items_of(parts[2]));
    let fun = defun_function(parts)->Ok_0.1;
    assert(fun.params == names);
    assert(parts.len() == 4 && names.len() == p.params.len());
    assert(check_node(parts[3], body_env(names, p.params, sigs)) is Ok);
}

/// The functions of a well-typed program fit their declared signatures.
proof fn lemma_program_funs_typed(program: Seq<Node>)
    requires
        typecheck_program(program) is Ok,
    ensures
        register_functions(program) is Ok,
        funs_typed(register_functions(program)->Ok_0, collect_signatures(program)->Ok_0),
{
    lemma_keywords();
    let sigs = collect_signatures(program)->Ok_0;
    let env0 = TypeEnvView { frames: seq![Map::<Seq<char>, Type>::empty()], funs: sigs };
    lemma_forms_walk(program, 0, env0, None);
    law_declare_precedes_defun(program);
    assert forall|m: int| 0 <= m < program.len() && head_of(#[trigger] program[m]) == Some("defun"@)
        implies defun_function(items_of(program[m])) is Ok && defun_function(items_of(program[m]))->Ok_0.0 == form_name(program[m]) by {
        lemma_defun_typed(program, m, sigs);
    }
    lemma_register_ok(program);
    let funs = register_functions(program)->Ok_0;
    assert forall|n: Seq<char>| #[trigger] sigs.contains_key(n) implies funs.contains_key(n) && fun_typed(funs[n], sigs[n], sigs) by {
        let j = lemma_collect_last(program, n);
        assert(head_of(program[j + 1]) == Some("defun"@) && form_name(program[j + 1]) == n);
        assert forall|m: int| j + 1 < m < program.len() && head_of(#[trigger] program[m]) == Some("defun"@)
            implies form_name(program[m]) != form_name(program[j + 1]) by {
            assert(head_of(program[m - 1]) == Some("declare"@) && form_name(program[m - 1]) == form_name(program[m]));
        }
        lemma_register_last(program, j + 1);
        lemma_defun_typed(program, j + 1, sigs);
    }
}

/// Running the forms `program[i..]` of a well-typed program ends without
/// error or with a runtime fault.
proof fn lemma_run_forms_sound(fm: FloatModel, fuel: nat, program: Seq<Node>, i: int, st: State, env: TypeEnvView, pending: Option<Pending>)
    requires
        0 <= i <= program.len(),
        check_forms(program, i, env, pending) is Ok,
        env.frames.len() == 1,
        pending_at(program, i, pending),
        state_fits(st, env),
    ensures
        run_forms(fm, fuel, program, i, st).0 matches Err(e) ==> is_runtime_fault(e),
    decreases program.len() - i,
{
    if i < program.len() {
        let e = program[i];
        lemma_top_step(program, i, env, pending);
        let (env1, pending1) = check_top(e, env, pending)->Ok_0;
        if head_of(e) == Some("declare"@) || head_of(e) == Some("defun"@) {
            lemma_keywords();
            if head_of(e) == Some("declare"@) {
                assert(env1 == env);
            } else {
                assert(check_defun(e, env, pending) is Ok);
                assert(env1 == env);
            }
            lemma_run_forms_sound(fm, fuel, program, i + 1, st, env1, pending1);
        } else {
            lemma_eval_node_sound(fm, fuel, e, st, env);
            let (r1, st1) = eval_node(fm, fuel, e, st);
            if r1 is Ok {
                lemma_run_forms_sound(fm, fuel, program, i + 1, st1, env1, pending1);
            }
        }
    }
}

/// Type soundness: a program that the checker accepts never fails at run
/// time on a type, nor on a variable or a function that is not there. Each
/// function runs with arguments of its parameter types, each operator gets
/// operands of the types it wants, each condition is a bool, each variable
/// read or assigned holds a value of its type; the only errors left are
/// those no type system rules out: the evaluation budget used up, a division
/// by zero, an integer overflow, and too many calls in progress.
pub proof fn law_well_typed_programs_do_not_go_wrong(fm: FloatModel, fuel: nat, program: Seq<Node>, out: Seq<Val>)
    requires
        typecheck_program(program) is Ok,
    ensures
        program_shaped(program),
        register_functions(program) is Ok,
        run_program(fm, fuel, program, out).0 matches Err(e) ==> is_runtime_fault(e),
{
    lemma_checked_program_shaped(program);
    lemma_program_funs_typed(program);
    let sigs = collect_signatures(program)->Ok_0;
    let funs = register_functions(program)->Ok_0;
    let env0 = TypeEnvView { frames: seq![Map::<Seq<char>, Type>::empty()], funs: sigs };
    let st0 = State {
        env: EvalEnvView { frames: seq![Map::<Seq<char>, Val>::empty()], funs, depth: 0 },
        out,
    };
    assert forall|k: Seq<char>| #[trigger] frames_lookup(env0.frames, k) is None by {
        assert(env0.frames.last() == Map::<Seq<char>, Type>::empty());
        assert(!env0.frames.last().contains_key(k));
        assert(env0.frames.drop_last() =~= Seq::<Map<Seq<char>, Type>>::empty());
        assert(frames_lookup(env0.frames.drop_last(), k) is None);
    }
    assert(scope_agrees(env0, st0.env.frames.last()));
    lemma_run_forms_sound(fm, fuel, program, 0, st0, env0, None);
}

} // verus!

//! What a checked program guarantees the evaluator: its shape.
use vstd::prelude::*;

use crate::ast::Node;
use crate::env::TypeEnvView;
use crate::error::Loc;
use crate::semantics::{eval_shaped, shaped_list, shaped_from, form_shaped, program_shaped};
use crate::types::Type;
use crate::typing::{
    Pending, check_node, check_list, check_seq, check_args, check_defun, check_top, check_forms,
    typecheck_program, head_of, items_of, parse_param_names, bind_all, collect_signatures,
};

verus! {

/* -- What the checker accepts, the evaluator can take apart ----------------- */

/// An expression the checker accepts is well shaped for the evaluator.
proof fn lemma_check_shaped(e: Node, env: TypeEnvView)
    requires
        check_node(e, env) is Ok,
    ensures
        eval_shaped(e),
    decreases e, 0int,
{
    if let Node::List(parts, loc) = e {
        if parts.len() > 0 {
            if let Node::Id(op, _) = parts[0] {
                lemma_check_list_shaped(op, parts, loc, env);
            }
        }
    }
}

proof fn lemma_check_list_shaped(op: Seq<char>, parts: Seq<Node>, loc: Loc, env: TypeEnvView)
    requires
        check_list(op, parts, loc, env) is Ok,
    ensures
        shaped_list(op, parts),
    decreases parts, parts.len() + 3,
{
    crate::typing::lemma_keywords();
    crate::semantics::lemma_operator_chars();
    if op == "let"@ {
        lemma_check_shaped(parts[3], env);
    } else if op == "assign"@ {
        lemma_check_shaped(parts[2], env);
    } else if op == "if"@ {
        lemma_check_shaped(parts[1], env);
        let env1 = check_node(parts[1], env)->Ok_0.1;
        lemma_check_shaped(parts[2], crate::typing::push_scope(env1));
        lemma_check_shaped(parts[3], crate::typing::push_scope(env1));
    } else if op == "while"@ {
        lemma_check_shaped(parts[1], env);
        let env1 = check_node(parts[1], env)->Ok_0.1;
        lemma_check_seq_shaped(parts, 2, crate::typing::push_scope(env1));
    } else if op == "print"@ || op == "not"@ || op == "length"@ {
        lemma_check_shaped(parts[1], env);
    } else if op == "defun"@ || op == "declare"@ {
    } else if crate::typing::is_arith_op(op) || crate::typing::is_eq_op(op) || crate::typing::is_ord_op(op)
        || crate::typing::is_logic_op(op) || op == "concat"@ {
        lemma_check_shaped(parts[1], env);
        let env1 = check_node(parts[1], env)->Ok_0.1;
        lemma_check_shaped(parts[2], env1);
    } else {
        lemma_check_args_shaped(op, parts, 1, env.funs[op].0, env);
    }
}

proof fn lemma_check_seq_shaped(parts: Seq<Node>, i: int, env: TypeEnvView)
    requires
        i >= 1,
        check_seq(parts, i, env) is Ok,
    ensures
        shaped_from(parts, i),
    decreases parts, parts.len() + 1 - i,
{
    if i < parts.len() {
        lemma_check_shaped(parts[i], env);
        let env1 = check_node(parts[i], env)->Ok_0.1;
        lemma_check_seq_shaped(parts, i + 1, env1);
    }
}

proof fn lemma_check_args_shaped(name: Seq<char>, parts: Seq<Node>, i: int, params: Seq<crate::types::Type>, env: TypeEnvView)
    requires
        i >= 1,
        check_args(name, parts, i, params, env) is Ok,
    ensures
        shaped_from(parts, i),
    decreases parts, parts.len() + 1 - i,
{
    if i < parts.len() {
        lemma_check_shaped(parts[i], env);
        let env1 = check_node(parts[i], env)->Ok_0.1;
        lemma_check_args_shaped(name, parts, i + 1, params, env1);
    }
}

proof fn lemma_forms_shaped(program: Seq<Node>, i: int, env: TypeEnvView, pending: Option<crate::typing::Pending>)
    requires
        0 <= i,
        check_forms(program, i, env, pending) is Ok,
    ensures
        forall|j: int| i <= j < program.len() ==> #[trigger] form_shaped(program[j]),
    decreases program.len() - i,
{
    if i < program.len() {
        let e = program[i];
        let (env1, pending1) = check_top(e, env, pending)->Ok_0;
        if head_of(e) == Some("declare"@) {
        } else if head_of(e) == Some("defun"@) {
            let parts = items_of(e);
            let p = pending->Some_0;
            let names = crate::typing::parse_param_names(parts[2])->Ok_0;
            let benv = crate::typing::body_env(names, p.params, env.funs);
            assert(check_defun(e, env, pending) is Ok);
            lemma_check_shaped(parts[3], benv);
        } else {
            lemma_check_shaped(e, env);
        }
        lemma_forms_shaped(program, i + 1, env1, pending1);
    }
}

/// Every program that the checker accepts can be taken apart by the
/// evaluator.
pub proof fn lemma_checked_program_shaped(program: Seq<Node>)
    requires
        typecheck_program(program) is Ok,
    ensures
        program_shaped(program),
{
    let sigs = crate::typing::collect_signatures(program)->Ok_0;
    let env = TypeEnvView { frames: seq![Map::<Seq<char>, crate::types::Type>::empty()], funs: sigs };
    lemma_forms_shaped(program, 0, env, None);
}

} // verus!

//! The type checker, proved to compute what the typing rules give.
use vstd::prelude::*;
use vstd::string::StringExecFns;

use crate::ast::{Expr, Node, nodes_of, lemma_nodes_of};
use crate::env::{TypeEnv, TypeEnvView};
use crate::error::{BestError, ErrorView, Loc, err_at};
use crate::text::{decimal, format_u64, text_eq};
use crate::types::{Type, type_text};
use crate::typing;
use crate::typing::{
    Checked, Pending, check_node, check_seq, check_args, quoted, operand_mismatch_msg, numeric_msg,
    head_of, items_of, parse_types, parse_names, bind_all, check_forms, check_defun,
    typecheck_program, has_let, has_let_from, has_let_below, lemma_let_free_items,
    let_names, let_names_from, let_target, kept_but, lemma_let_names_items, lemma_kept_but_trans,
};
use crate::table::Table;
use crate::semantics::program_shaped;
use crate::well_typed::lemma_checked_program_shaped;
use crate::env::signatures_of;

verus! {

/// Whether an executable outcome is the one the rules give, `env` being the
/// environment after the check.
pub open spec fn agrees(r: Result<Type, BestError>, c: Checked, env: TypeEnvView) -> bool {
    match r {
        Ok(t) => c == Ok::<(Type, TypeEnvView), ErrorView>((t, env)),
        Err(e) => c == Err::<(Type, TypeEnvView), ErrorView>(e@),
    }
}

/// Appends `'<s>'`.
fn push_quoted(m: &mut String, s: &str)
    ensures
        final(m)@ == old(m)@ + quoted(s@),
{
    m.append("'");
    m.append(s);
    m.append("'");
    assert(final(m)@ =~= old(m)@ + quoted(s@));
}

fn error_at(m: String, loc: &Loc) -> (e: BestError)
    ensures
        e@ == err_at(m@, *loc),
{
    BestError { message: m, loc: Some(*loc) }
}

/// `<prefix>'<a>'<middle>'<b>'`
fn two_types_msg(prefix: &str, a: Type, middle: &str, b: Type) -> (m: String)
    ensures
        m@ == prefix@ + quoted(type_text(a)) + middle@ + quoted(type_text(b)),
{
    let mut m = String::from_str(prefix);
    push_quoted(&mut m, a.name());
    m.append(middle);
    push_quoted(&mut m, b.name());
    assert(m@ =~= prefix@ + quoted(type_text(a)) + middle@ + quoted(type_text(b)));
    m
}

/// `<prefix>'<t>'`
fn one_type_msg(prefix: &str, t: Type) -> (m: String)
    ensures
        m@ == prefix@ + quoted(type_text(t)),
{
    let mut m = String::from_str(prefix);
    push_quoted(&mut m, t.name());
    m
}

/// `'<op>'<rest>`
fn op_msg(op: &str, rest: &str) -> (m: String)
    ensures
        m@ == quoted(op@) + rest@,
{
    let mut m = String::new();
    push_quoted(&mut m, op);
    m.append(rest);
    assert(m@ =~= quoted(op@) + rest@);
    m
}

/// The name held by an identifier node.
pub fn require_id(expr: &Expr, context: &str) -> (r: Result<String, BestError>)
    ensures
        match r {
            Ok(s) => typing::require_id(expr@, context@) == Ok::<Seq<char>, ErrorView>(s@),
            Err(e) => typing::require_id(expr@, context@) == Err::<Seq<char>, ErrorView>(e@),
        },
{
    match expr {
        Expr::Id(s, _) => Ok(s.clone()),
        _ => {
            let mut m = String::from_str(context);
            m.append(" must be an identifier");
            Err(error_at(m, expr.loc()))
        },
    }
}

/// The type a type-name node denotes.
pub fn require_type(expr: &Expr, context: &str) -> (r: Result<Type, BestError>)
    ensures
        match r {
            Ok(t) => typing::require_type(expr@, context@) == Ok::<Type, ErrorView>(t),
            Err(e) => typing::require_type(expr@, context@) == Err::<Type, ErrorView>(e@),
        },
{
    match expr {
        Expr::TypeName(s, loc) => Type::from_name(s.as_str(), loc),
        _ => {
            let mut m = String::from_str(context);
            m.append(" must be a type name");
            Err(error_at(m, expr.loc()))
        },
    }
}

/// Returns the type of `expr` and enforces all the rules of the language
/// on it; a `let` in `expr`, but not in a branch of an `if` or the body of
/// a `while`, adds its variable to `env`. Whether the check
/// succeeds or fails, only the innermost scope's bindings of names that a
/// `let` in `expr` declares may change, and a failed check of an expression
/// with no `let` below it leaves `env` as it was.
pub fn check_expr(expr: &Expr, env: &mut TypeEnv, ret: Option<&Type>) -> (r: Result<Type, BestError>)
    requires
        old(env)@.frames.len() > 0 || !has_let(expr@),
    ensures
        final(env)@.frames.len() == old(env)@.frames.len(),
        final(env)@.funs == old(env)@.funs,
        agrees(r, check_node(expr@, old(env)@), final(env)@),
        !has_let_below(expr@) && (r is Err || !has_let(expr@)) ==> final(env)@ == old(env)@,
        kept_but(old(env)@, final(env)@, let_names(expr@)),
    decreases expr, 0nat,
{
    match expr {
        Expr::Int(_, _) => Ok(Type::Int),
        Expr::Float(_, _) => Ok(Type::Float),
        Expr::Bool(_, _) => Ok(Type::Bool),
        Expr::Str(_, _) => Ok(Type::Str),
        Expr::TypeName(_, loc) => Err(BestError::at("type name used in expression position", loc)),
        Expr::Id(name, loc) => env.lookup_var(name.as_str(), loc),
        Expr::List(parts, loc) => {
            proof {
                lemma_nodes_of(parts@);
                lemma_let_free_items(nodes_of(parts@));
            }
            if parts.len() == 0 {
                return Err(BestError::at("empty list is not a valid expression", loc));
            }
            match &parts[0] {
                Expr::Id(op, _) => check_list(op.as_str(), parts, loc, env, ret),
                other => Err(BestError::at("list head must be an identifier", other.loc())),
            }
        },
    }
}

fn check_list(op: &str, parts: &Vec<Expr>, loc: &Loc, env: &mut TypeEnv, ret: Option<&Type>) -> (r: Result<Type, BestError>)
    requires
        parts@.len() > 0,
        old(env)@.frames.len() > 0 || (op@ != "let"@ && !has_let_from(nodes_of(parts@), 0)),
        nodes_of(parts@)[0] is Id && nodes_of(parts@)[0]->Id_0 == op@,
    ensures
        final(env)@.frames.len() == old(env)@.frames.len(),
        final(env)@.funs == old(env)@.funs,
        agrees(r, typing::check_list(op@, nodes_of(parts@), *loc, old(env)@), final(env)@),
        !has_let_from(nodes_of(parts@), 0) && (r is Err || op@ != "let"@) ==> final(env)@ == old(env)@,
        kept_but(old(env)@, final(env)@, let_names(Node::List(nodes_of(parts@), *loc))),
    decreases parts, parts@.len() + 3,
{
    if text_eq(op, "let") {
        check_let(parts, loc, env, ret)
    } else if text_eq(op, "assign") {
        check_assign(parts, loc, env, ret)
    } else if text_eq(op, "if") {
        check_if(parts, loc, env, ret)
    } else if text_eq(op, "while") {
        check_while(parts, loc, env, ret)
    } else if text_eq(op, "print") {
        check_print(parts, loc, env, ret)
    } else if text_eq(op, "defun") || text_eq(op, "declare") {
        Err(error_at(op_msg(op, " is only allowed at top level"), loc))
    } else if text_eq(op, "+") || text_eq(op, "-") || text_eq(op, "*") || text_eq(op, "/")
        || text_eq(op, "==") || text_eq(op, "!=")
        || text_eq(op, "<") || text_eq(op, ">") || text_eq(op, "<=") || text_eq(op, ">=") {
        check_binary(op, parts, loc, env, ret)
    } else if text_eq(op, "and") || text_eq(op, "or") {
        check_logic(op, parts, loc, env, ret)
    } else if text_eq(op, "not") {
        check_not(parts, loc, env, ret)
    } else if text_eq(op, "concat") {
        check_concat(parts, loc, env, ret)
    } else if text_eq(op, "length") {
        check_length(parts, loc, env, ret)
    } else {
        check_call(op, parts, loc, env, ret)
    }
}

fn check_let(parts: &Vec<Expr>, loc: &Loc, env: &mut TypeEnv, ret: Option<&Type>) -> (r: Result<Type, BestError>)
    requires
        old(env)@.frames.len() > 0,
    ensures
        final(env)@.frames.len() == old(env)@.frames.len(),
        final(env)@.funs == old(env)@.funs,
        agrees(r, typing::check_let(nodes_of(parts@), *loc, old(env)@), final(env)@),
        r is Err && !has_let_from(nodes_of(parts@), 0) ==> final(env)@ == old(env)@,
        kept_but(old(env)@, final(env)@, let_names_from(nodes_of(parts@), 0).union(let_target(nodes_of(parts@)))),
    decreases parts, parts@.len() + 2,
{
    proof {
        lemma_nodes_of(parts@);
        lemma_let_free_items(nodes_of(parts@));
        lemma_let_names_items(nodes_of(parts@));
    }
    if parts.len() != 4 {
        return Err(BestError::at("let expects: (let name type value)", loc));
    }
    let name = require_id(&parts[1], "let: variable name")?;
    let ty = require_type(&parts[2], "let: type")?;
    let val_ty = check_expr(&parts[3], env, ret)?;
    if val_ty != ty {
        let mut m = String::from_str("let ");
        push_quoted(&mut m, name.as_str());
        let rest = two_types_msg(": value type ", val_ty, " does not match declared type ", ty);
        m.append(rest.as_str());
        assert(m@ =~= "let "@ + quoted(name@) + ": value type "@ + quoted(type_text(val_ty))
            + " does not match declared type "@ + quoted(type_text(ty)));
        return Err(error_at(m, parts[3].loc()));
    }
    if let Ok(old_ty) = env.lookup_var(name.as_str(), parts[1].loc()) {
        if old_ty != ty {
            let mut m = String::from_str("let ");
            push_quoted(&mut m, name.as_str());
            let rest = one_type_msg(": variable already has type ", old_ty);
            m.append(rest.as_str());
            assert(m@ =~= typing::retype_msg(name@, old_ty));
            return Err(error_at(m, parts[1].loc()));
        }
    }
    env.declare_var(name.as_str(), ty);
    Ok(Type::Void)
}

fn check_assign(parts: &Vec<Expr>, loc: &Loc, env: &mut TypeEnv, ret: Option<&Type>) -> (r: Result<Type, BestError>)
    requires
        old(env)@.frames.len() > 0 || !has_let_from(nodes_of(parts@), 0),
    ensures
        final(env)@.frames.len() == old(env)@.frames.len(),
        final(env)@.funs == old(env)@.funs,
        agrees(r, typing::check_assign(nodes_of(parts@), *loc, old(env)@), final(env)@),
        !has_let_from(nodes_of(parts@), 0) ==> final(env)@ == old(env)@,
        kept_but(old(env)@, final(env)@, let_names_from(nodes_of(parts@), 0)),
    decreases parts, parts@.len() + 2,
{
    proof {
        lemma_nodes_of(parts@);
        lemma_let_free_items(nodes_of(parts@));
        lemma_let_names_items(nodes_of(parts@));
    }
    if parts.len() != 3 {
        return Err(BestError::at("assign expects: (assign name value)", loc));
    }
    let name = require_id(&parts[1], "assign: variable name")?;
    let var_ty = env.lookup_var(name.as_str(), parts[1].loc())?;
    let val_ty = check_expr(&parts[2], env, ret)?;
    if val_ty != var_ty {
        let mut m = String::from_str("assign ");
        push_quoted(&mut m, name.as_str());
        let rest = two_types_msg(": value type ", val_ty, " does not match variable type ", var_ty);
        m.append(rest.as_str());
        assert(m@ =~= "assign "@ + quoted(name@) + ": value type "@ + quoted(type_text(val_ty))
            + " does not match variable type "@ + quoted(type_text(var_ty)));
        return Err(error_at(m, parts[2].loc()));
    }
    Ok(Type::Void)
}

fn check_if(parts: &Vec<Expr>, loc: &Loc, env: &mut TypeEnv, ret: Option<&Type>) -> (r: Result<Type, BestError>)
    requires
        old(env)@.frames.len() > 0 || !has_let_from(nodes_of(parts@), 0),
    ensures
        final(env)@.frames.len() == old(env)@.frames.len(),
        final(env)@.funs == old(env)@.funs,
        agrees(r, typing::check_if(nodes_of(parts@), *loc, old(env)@), final(env)@),
        !has_let_from(nodes_of(parts@), 0) ==> final(env)@ == old(env)@,
        kept_but(old(env)@, final(env)@, let_names_from(nodes_of(parts@), 0)),
    decreases parts, parts@.len() + 2,
{
    proof {
        lemma_nodes_of(parts@);
        lemma_let_free_items(nodes_of(parts@));
        lemma_let_names_items(nodes_of(parts@));
    }
    if parts.len() != 4 {
        return Err(BestError::at("if expects: (if cond then else)", loc));
    }
    let cond_ty = check_expr(&parts[1], env, ret)?;
    if cond_ty != Type::Bool {
        return Err(error_at(one_type_msg("if condition must be bool, got ", cond_ty), parts[1].loc()));
    }
    let ghost env1 = env@;
    env.push_frame();
    let r2 = check_expr(&parts[2], env, ret);
    env.pop_frame();
    assert(env@.frames =~= env1.frames);
    assert(env@ == env1);
    let then_ty = r2?;
    env.push_frame();
    let r3 = check_expr(&parts[3], env, ret);
    env.pop_frame();
    assert(env@.frames =~= env1.frames);
    assert(env@ == env1);
    let else_ty = r3?;
    if then_ty != else_ty {
        return Err(error_at(two_types_msg("if branches have different types: ", then_ty, " vs ", else_ty), loc));
    }
    Ok(then_ty)
}

fn check_while(parts: &Vec<Expr>, loc: &Loc, env: &mut TypeEnv, ret: Option<&Type>) -> (r: Result<Type, BestError>)
    requires
        old(env)@.frames.len() > 0 || !has_let_from(nodes_of(parts@), 0),
    ensures
        final(env)@.frames.len() == old(env)@.frames.len(),
        final(env)@.funs == old(env)@.funs,
        agrees(r, typing::check_while(nodes_of(parts@), *loc, old(env)@), final(env)@),
        !has_let_from(nodes_of(parts@), 0) ==> final(env)@ == old(env)@,
        kept_but(old(env)@, final(env)@, let_names_from(nodes_of(parts@), 0)),
    decreases parts, parts@.len() + 2,
{
    proof {
        lemma_nodes_of(parts@);
        lemma_let_free_items(nodes_of(parts@));
        lemma_let_names_items(nodes_of(parts@));
    }
    if parts.len() < 3 {
        return Err(BestError::at("while expects: (while cond body...)", loc));
    }
    let cond_ty = check_expr(&parts[1], env, ret)?;
    if cond_ty != Type::Bool {
        return Err(error_at(one_type_msg("while condition must be bool, got ", cond_ty), parts[1].loc()));
    }
    let ghost env1 = env@;
    env.push_frame();
    let mut i: usize = 2;
    #[verifier::loop_isolation(false)]
    while i < parts.len()
        invariant
            2 <= i <= parts@.len(),
            nodes_of(parts@).len() == parts@.len(),
            forall|j: int| 0 <= j < parts@.len() ==> #[trigger] nodes_of(parts@)[j] == parts@[j]@,
            env@.frames.len() == env1.frames.len() + 1,
            forall|j: int| 0 <= j < env1.frames.len() ==> #[trigger] env@.frames[j] == env1.frames[j],
            env@.funs == env1.funs,
            check_seq(nodes_of(parts@), 2, typing::push_scope(env1)) == check_seq(nodes_of(parts@), i as int, env@),
        decreases parts@.len() - i,
    {
        proof {
            assert(decreases_to!(*parts => parts[i as int]));
        }
        let r_i = check_expr(&parts[i], env, ret);
        if let Err(e) = r_i {
            env.pop_frame();
            assert(env@.frames =~= env1.frames);
            assert(env@ == env1);
            return Err(e);
        }
        i = i + 1;
    }
    env.pop_frame();
    assert(env@.frames =~= env1.frames);
    assert(env@ == env1);
    Ok(Type::Void)
}

fn check_print(parts: &Vec<Expr>, loc: &Loc, env: &mut TypeEnv, ret: Option<&Type>) -> (r: Result<Type, BestError>)
    requires
        old(env)@.frames.len() > 0 || !has_let_from(nodes_of(parts@), 0),
    ensures
        final(env)@.frames.len() == old(env)@.frames.len(),
        final(env)@.funs == old(env)@.funs,
        agrees(r, typing::check_print(nodes_of(parts@), *loc, old(env)@), final(env)@),
        !has_let_from(nodes_of(parts@), 0) ==> final(env)@ == old(env)@,
        kept_but(old(env)@, final(env)@, let_names_from(nodes_of(parts@), 0)),
    decreases parts, parts@.len() + 2,
{
    proof {
        lemma_nodes_of(parts@);
        lemma_let_free_items(nodes_of(parts@));
        lemma_let_names_items(nodes_of(parts@));
    }
    if parts.len() != 2 {
        return Err(BestError::at("print expects exactly one argument", loc));
    }
    let ty = check_expr(&parts[1], env, ret)?;
    if ty == Type::Void {
        return Err(BestError::at("cannot print a void value", parts[1].loc()));
    }
    Ok(Type::Void)
}

fn check_binary(op: &str, parts: &Vec<Expr>, loc: &Loc, env: &mut TypeEnv, ret: Option<&Type>) -> (r: Result<Type, BestError>)
    requires
        old(env)@.frames.len() > 0 || !has_let_from(nodes_of(parts@), 0),
    ensures
        final(env)@.frames.len() == old(env)@.frames.len(),
        final(env)@.funs == old(env)@.funs,
        agrees(r, typing::check_binary(op@, nodes_of(parts@), *loc, old(env)@), final(env)@),
        !has_let_from(nodes_of(parts@), 0) ==> final(env)@ == old(env)@,
        kept_but(old(env)@, final(env)@, let_names_from(nodes_of(parts@), 0)),
    decreases parts, parts@.len() + 2,
{
    proof {
        lemma_nodes_of(parts@);
        lemma_let_free_items(nodes_of(parts@));
        lemma_let_names_items(nodes_of(parts@));
    }
    if parts.len() != 3 {
        return Err(error_at(op_msg(op, " expects exactly two arguments"), loc));
    }
    let lt = check_expr(&parts[1], env, ret)?;
    let ghost env1 = env@;
    let r2 = check_expr(&parts[2], env, ret);
    proof {
        lemma_kept_but_trans(old(env)@, env1, env@, let_names(nodes_of(parts@)[1]), let_names(nodes_of(parts@)[2]),
            let_names_from(nodes_of(parts@), 0));
    }
    let rt = r2?;
    if lt != rt {
        let mut m = String::new();
        push_quoted(&mut m, op);
        let rest = two_types_msg(" operands have different types: ", lt, " vs ", rt);
        m.append(rest.as_str());
        assert(m@ =~= operand_mismatch_msg(op@, lt, rt));
        return Err(error_at(m, loc));
    }
    if text_eq(op, "==") || text_eq(op, "!=") {
        if lt == Type::Void {
            return Err(error_at(op_msg(op, " compares void values"), loc));
        }
        return Ok(Type::Bool);
    }
    if lt != Type::Int && lt != Type::Float {
        let mut m = String::new();
        push_quoted(&mut m, op);
        let rest = one_type_msg(" requires numeric operands, got ", lt);
        m.append(rest.as_str());
        assert(m@ =~= numeric_msg(op@, lt));
        return Err(error_at(m, loc));
    }
    if text_eq(op, "+") || text_eq(op, "-") || text_eq(op, "*") || text_eq(op, "/") {
        Ok(lt)
    } else {
        Ok(Type::Bool)
    }
}

fn check_logic(op: &str, parts: &Vec<Expr>, loc: &Loc, env: &mut TypeEnv, ret: Option<&Type>) -> (r: Result<Type, BestError>)
    requires
        old(env)@.frames.len() > 0 || !has_let_from(nodes_of(parts@), 0),
    ensures
        final(env)@.frames.len() == old(env)@.frames.len(),
        final(env)@.funs == old(env)@.funs,
        agrees(r, typing::check_logic(op@, nodes_of(parts@), *loc, old(env)@), final(env)@),
        !has_let_from(nodes_of(parts@), 0) ==> final(env)@ == old(env)@,
        kept_but(old(env)@, final(env)@, let_names_from(nodes_of(parts@), 0)),
    decreases parts, parts@.len() + 2,
{
    proof {
        lemma_nodes_of(parts@);
        lemma_let_free_items(nodes_of(parts@));
        lemma_let_names_items(nodes_of(parts@));
    }
    if parts.len() != 3 {
        return Err(error_at(op_msg(op, " expects exactly two arguments"), loc));
    }
    let lt = check_expr(&parts[1], env, ret)?;
    let ghost env1 = env@;
    let r2 = check_expr(&parts[2], env, ret);
    proof {
        lemma_kept_but_trans(old(env)@, env1, env@, let_names(nodes_of(parts@)[1]), let_names(nodes_of(parts@)[2]),
            let_names_from(nodes_of(parts@), 0));
    }
    let rt = r2?;
    if lt != Type::Bool {
        let mut m = String::new();
        push_quoted(&mut m, op);
        let rest = one_type_msg(" left operand must be bool, got ", lt);
        m.append(rest.as_str());
        assert(m@ =~= quoted(op@) + " left operand must be bool, got "@ + quoted(type_text(lt)));
        return Err(error_at(m, loc));
    }
    if rt != Type::Bool {
        let mut m = String::new();
        push_quoted(&mut m, op);
        let rest = one_type_msg(" right operand must be bool, got ", rt);
        m.append(rest.as_str());
        assert(m@ =~= quoted(op@) + " right operand must be bool, got "@ + quoted(type_text(rt)));
        return Err(error_at(m, loc));
    }
    Ok(Type::Bool)
}

fn check_not(parts: &Vec<Expr>, loc: &Loc, env: &mut TypeEnv, ret: Option<&Type>) -> (r: Result<Type, BestError>)
    requires
        old(env)@.frames.len() > 0 || !has_let_from(nodes_of(parts@), 0),
    ensures
        final(env)@.frames.len() == old(env)@.frames.len(),
        final(env)@.funs == old(env)@.funs,
        agrees(r, typing::check_not(nodes_of(parts@), *loc, old(env)@), final(env)@),
        !has_let_from(nodes_of(parts@), 0) ==> final(env)@ == old(env)@,
        kept_but(old(env)@, final(env)@, let_names_from(nodes_of(parts@), 0)),
    decreases parts, parts@.len() + 2,
{
    proof {
        lemma_nodes_of(parts@);
        lemma_let_free_items(nodes_of(parts@));
        lemma_let_names_items(nodes_of(parts@));
    }
    if parts.len() != 2 {
        return Err(BestError::at("not expects exactly one argument", loc));
    }
    let t = check_expr(&parts[1], env, ret)?;
    if t != Type::Bool {
        return Err(error_at(one_type_msg("not requires bool, got ", t), loc));
    }
    Ok(Type::Bool)
}

fn check_concat(parts: &Vec<Expr>, loc: &Loc, env: &mut TypeEnv, ret: Option<&Type>) -> (r: Result<Type, BestError>)
    requires
        old(env)@.frames.len() > 0 || !has_let_from(nodes_of(parts@), 0),
    ensures
        final(env)@.frames.len() == old(env)@.frames.len(),
        final(env)@.funs == old(env)@.funs,
        agrees(r, typing::check_concat(nodes_of(parts@), *loc, old(env)@), final(env)@),
        !has_let_from(nodes_of(parts@), 0) ==> final(env)@ == old(env)@,
        kept_but(old(env)@, final(env)@, let_names_from(nodes_of(parts@), 0)),
    decreases parts, parts@.len() + 2,
{
    proof {
        lemma_nodes_of(parts@);
        lemma_let_free_items(nodes_of(parts@));
        lemma_let_names_items(nodes_of(parts@));
    }
    if parts.len() != 3 {
        return Err(BestError::at("concat expects exactly two arguments", loc));
    }
    let lt = check_expr(&parts[1], env, ret)?;
    let ghost env1 = env@;
    let r2 = check_expr(&parts[2], env, ret);
    proof {
        lemma_kept_but_trans(old(env)@, env1, env@, let_names(nodes_of(parts@)[1]), let_names(nodes_of(parts@)[2]),
            let_names_from(nodes_of(parts@), 0));
    }
    let rt = r2?;
    if lt != Type::Str {
        return Err(error_at(one_type_msg("concat left operand must be str, got ", lt), loc));
    }
    if rt != Type::Str {
        return Err(error_at(one_type_msg("concat right operand must be str, got ", rt), loc));
    }
    Ok(Type::Str)
}

fn check_length(parts: &Vec<Expr>, loc: &Loc, env: &mut TypeEnv, ret: Option<&Type>) -> (r: Result<Type, BestError>)
    requires
        old(env)@.frames.len() > 0 || !has_let_from(nodes_of(parts@), 0),
    ensures
        final(env)@.frames.len() == old(env)@.frames.len(),
        final(env)@.funs == old(env)@.funs,
        agrees(r, typing::check_length(nodes_of(parts@), *loc, old(env)@), final(env)@),
        !has_let_from(nodes_of(parts@), 0) ==> final(env)@ == old(env)@,
        kept_but(old(env)@, final(env)@, let_names_from(nodes_of(parts@), 0)),
    decreases parts, parts@.len() + 2,
{
    proof {
        lemma_nodes_of(parts@);
        lemma_let_free_items(nodes_of(parts@));
        lemma_let_names_items(nodes_of(parts@));
    }
    if parts.len() != 2 {
        return Err(BestError::at("length expects exactly one argument", loc));
    }
    let t = check_expr(&parts[1], env, ret)?;
    if t != Type::Str {
        return Err(error_at(one_type_msg("length requires str, got ", t), loc));
    }
    Ok(Type::Int)
}

fn check_call(name: &str, parts: &Vec<Expr>, loc: &Loc, env: &mut TypeEnv, ret: Option<&Type>) -> (r: Result<Type, BestError>)
    requires
        parts@.len() > 0,
        old(env)@.frames.len() > 0 || !has_let_from(nodes_of(parts@), 0),
    ensures
        final(env)@.frames.len() == old(env)@.frames.len(),
        final(env)@.funs == old(env)@.funs,
        agrees(r, typing::check_call(name@, nodes_of(parts@), *loc, old(env)@), final(env)@),
        !has_let_from(nodes_of(parts@), 0) ==> final(env)@ == old(env)@,
        kept_but(old(env)@, final(env)@, let_names_from(nodes_of(parts@), 0)),
    decreases parts, parts@.len() + 2,
{
    proof {
        lemma_nodes_of(parts@);
        lemma_let_free_items(nodes_of(parts@));
        lemma_let_names_items(nodes_of(parts@));
    }
    let (param_types, ret_type) = env.lookup_fun(name, loc)?;
    let nargs = parts.len() - 1;
    if nargs != param_types.len() {
        let mut m = String::from_str("function ");
        push_quoted(&mut m, name);
        m.append(" expects ");
        m.append(format_u64(param_types.len() as u64).as_str());
        m.append(" argument(s), got ");
        m.append(format_u64(nargs as u64).as_str());
        assert(m@ =~= "function "@ + quoted(name@) + " expects "@ + decimal(param_types@.len()) + " argument(s), got "@
            + decimal((nodes_of(parts@).len() - 1) as nat));
        return Err(error_at(m, loc));
    }
    let ghost env0 = env@;
    let mut i: usize = 1;
    #[verifier::loop_isolation(false)]
    while i < parts.len()
        invariant
            1 <= i <= parts@.len(),
            nargs == parts@.len() - 1,
            param_types@.len() == nargs,
            nodes_of(parts@).len() == parts@.len(),
            forall|j: int| 0 <= j < parts@.len() ==> #[trigger] nodes_of(parts@)[j] == parts@[j]@,
            old(env)@.frames.len() > 0 || !has_let_from(nodes_of(parts@), 0),
            !has_let_from(nodes_of(parts@), 0) ==> env@ == old(env)@,
            kept_but(old(env)@, env@, let_names_from(nodes_of(parts@), 0)),
            forall|j: int, k: Seq<char>| 0 <= j < parts@.len() && #[trigger] let_names(nodes_of(parts@)[j]).contains(k)
                ==> let_names_from(nodes_of(parts@), 0).contains(k),
            env@.frames.len() == old(env)@.frames.len(),
            env@.funs == old(env)@.funs,
            check_args(name@, nodes_of(parts@), 1, param_types@, env0)
                == check_args(name@, nodes_of(parts@), i as int, param_types@, env@),
        decreases parts@.len() - i,
    {
        proof {
            assert(decreases_to!(*parts => parts[i as int]));
        }
        let ghost env_i = env@;
        let r_i = check_expr(&parts[i], env, ret);
        proof {
            lemma_kept_but_trans(old(env)@, env_i, env@, let_names_from(nodes_of(parts@), 0),
                let_names(nodes_of(parts@)[i as int]), let_names_from(nodes_of(parts@), 0));
        }
        let got = r_i?;
        let expected = param_types[i - 1];
        if got != expected {
            let mut m = String::from_str("function ");
            push_quoted(&mut m, name);
            m.append(" argument ");
            m.append(format_u64(i as u64).as_str());
            let rest = two_types_msg(": expected ", expected, ", got ", got);
            m.append(rest.as_str());
            assert(m@ =~= "function "@ + quoted(name@) + " argument "@ + decimal(i as nat) + ": expected "@
                + quoted(type_text(expected)) + ", got "@ + quoted(type_text(got)));
            return Err(error_at(m, parts[i].loc()));
        }
        i = i + 1;
    }
    Ok(ret_type)
}

/* -- Programs ------------------------------------------------------------- */

/// The name at the head of a list whose first item is an identifier.
pub(crate) fn head_id(expr: &Expr) -> (r: Option<&str>)
    ensures
        match r {
            Some(s) => head_of(expr@) == Some(s@),
            None => head_of(expr@) is None,
        },
{
    if let Expr::List(items, _) = expr {
        proof {
            lemma_nodes_of(items@);
        }
        if items.len() > 0 {
            if let Expr::Id(s, _) = &items[0] {
                return Some(s.as_str());
            }
        }
    }
    None
}

/// The items of a list node.
pub(crate) fn items(expr: &Expr) -> (r: Option<&Vec<Expr>>)
    ensures
        match r {
            Some(v) => expr@ is List && items_of(expr@) == nodes_of(v@),
            None => !(expr@ is List),
        },
{
    if let Expr::List(v, _) = expr { Some(v) } else { None }
}

/// Reads a type-name node as a type.
pub fn parse_single_type(expr: &Expr) -> (r: Result<Type, BestError>)
    ensures
        match r {
            Ok(t) => typing::parse_single_type(expr@) == Ok::<Type, ErrorView>(t),
            Err(e) => typing::parse_single_type(expr@) == Err::<Type, ErrorView>(e@),
        },
{
    match expr {
        Expr::TypeName(s, loc) => Type::from_name(s.as_str(), loc),
        other => Err(BestError::at("expected a type name", other.loc())),
    }
}

/// Reads a list of type names as a list of types.
pub fn parse_type_list(expr: &Expr) -> (r: Result<Vec<Type>, BestError>)
    ensures
        match r {
            Ok(v) => typing::parse_type_list(expr@) == Ok::<Seq<Type>, ErrorView>(v@),
            Err(e) => typing::parse_type_list(expr@) == Err::<Seq<Type>, ErrorView>(e@),
        },
{
    match expr {
        Expr::List(items, _) => {
            proof {
                lemma_nodes_of(items@);
            }
            let mut out: Vec<Type> = Vec::new();
            let mut i: usize = 0;
            assert(nodes_of(items@).take(0) =~= Seq::<Node>::empty());
            #[verifier::loop_isolation(false)]
            while i < items.len()
                invariant
                    i <= items@.len(),
                    nodes_of(items@).len() == items@.len(),
                    forall|j: int| 0 <= j < items@.len() ==> #[trigger] nodes_of(items@)[j] == items@[j]@,
                    parse_types(nodes_of(items@).take(i as int)) == Ok::<Seq<Type>, ErrorView>(out@),
                decreases items@.len() - i,
            {
                assert(nodes_of(items@).take(i + 1).drop_last() =~= nodes_of(items@).take(i as int));
                assert(nodes_of(items@).take(i + 1).last() == items@[i as int]@);
                match parse_single_type(&items[i]) {
                    Ok(t) => out.push(t),
                    Err(e) => {
                        proof {
                            assert(parse_types(nodes_of(items@).take(i + 1)) == Err::<Seq<Type>, ErrorView>(e@));
                            lemma_parse_types_prefix_error(nodes_of(items@), (i + 1) as int);
                        }
                        return Err(e);
                    },
                }
                i = i + 1;
            }
            assert(nodes_of(items@).take(i as int) =~= nodes_of(items@));
            Ok(out)
        },
        other => Err(BestError::at("expected a list of types", other.loc())),
    }
}

/// An error while reading a prefix of a list of type names is the error of
/// the whole list.
proof fn lemma_parse_types_prefix_error(items: Seq<Node>, k: int)
    requires
        0 <= k <= items.len(),
        parse_types(items.take(k)) is Err,
    ensures
        parse_types(items) == parse_types(items.take(k)),
    decreases items.len() - k,
{
    if k < items.len() {
        assert(items.take(k + 1).drop_last() =~= items.take(k));
        lemma_parse_types_prefix_error(items, k + 1);
    } else {
        assert(items.take(k) =~= items);
    }
}

/// An error while reading a prefix of a parameter list is the error of the
/// whole list.
proof fn lemma_parse_names_prefix_error(items: Seq<Node>, k: int)
    requires
        0 <= k <= items.len(),
        parse_names(items.take(k)) is Err,
    ensures
        parse_names(items) == parse_names(items.take(k)),
    decreases items.len() - k,
{
    if k < items.len() {
        assert(items.take(k + 1).drop_last() =~= items.take(k));
        lemma_parse_names_prefix_error(items, k + 1);
    } else {
        assert(items.take(k) =~= items);
    }
}

/// The names of a list of strings.
pub open spec fn names_of(v: Seq<String>) -> Seq<Seq<char>> {
    v.map_values(|s: String| s@)
}

/// Reads a parameter list as the parameters' names.
pub fn parse_param_names(expr: &Expr) -> (r: Result<Vec<String>, BestError>)
    ensures
        match r {
            Ok(v) => typing::parse_param_names(expr@) == Ok::<Seq<Seq<char>>, ErrorView>(names_of(v@)),
            Err(e) => typing::parse_param_names(expr@) == Err::<Seq<Seq<char>>, ErrorView>(e@),
        },
{
    match expr {
        Expr::List(items, _) => {
            proof {
                lemma_nodes_of(items@);
            }
            let mut out: Vec<String> = Vec::new();
            let mut i: usize = 0;
            assert(names_of(out@) =~= Seq::<Seq<char>>::empty());
            assert(nodes_of(items@).take(0) =~= Seq::<Node>::empty());
            #[verifier::loop_isolation(false)]
            while i < items.len()
                invariant
                    i <= items@.len(),
                    nodes_of(items@).len() == items@.len(),
                    forall|j: int| 0 <= j < items@.len() ==> #[trigger] nodes_of(items@)[j] == items@[j]@,
                    parse_names(nodes_of(items@).take(i as int)) == Ok::<Seq<Seq<char>>, ErrorView>(names_of(out@)),
                decreases items@.len() - i,
            {
                assert(nodes_of(items@).take(i + 1).drop_last() =~= nodes_of(items@).take(i as int));
                assert(nodes_of(items@).take(i + 1).last() == items@[i as int]@);
                match &items[i] {
                    Expr::Id(s, _) => {
                        let ghost before = out@;
                        out.push(s.clone());
                        assert(names_of(out@) =~= names_of(before).push(s@));
                    },
                    other => {
                        proof {
                            assert(parse_names(nodes_of(items@).take(i + 1)) is Err);
                            lemma_parse_names_prefix_error(nodes_of(items@), (i + 1) as int);
                        }
                        return Err(BestError::at("parameter must be an identifier", other.loc()));
                    },
                }
                i = i + 1;
            }
            assert(nodes_of(items@).take(i as int) =~= nodes_of(items@));
            Ok(out)
        },
        other => Err(BestError::at("expected parameter list", other.loc())),
    }
}

/// An error among the first `k` forms is the error of collecting them all.
proof fn lemma_collect_prefix_error(program: Seq<Node>, k: int)
    requires
        0 <= k <= program.len(),
        typing::collect_signatures(program.take(k)) is Err,
    ensures
        typing::collect_signatures(program) == typing::collect_signatures(program.take(k)),
    decreases program.len() - k,
{
    if k < program.len() {
        assert(program.take(k + 1).drop_last() =~= program.take(k));
        lemma_collect_prefix_error(program, k + 1);
    } else {
        assert(program.take(k) =~= program);
    }
}

/// When the signatures can be collected, every `declare` has four items.
pub proof fn lemma_collect_shaped(program: Seq<Node>)
    requires
        typing::collect_signatures(program) is Ok,
    ensures
        forall|j: int|
            0 <= j < program.len() && head_of(#[trigger] program[j]) == Some("declare"@)
                ==> items_of(program[j]).len() == 4,
    decreases program.len(),
{
    if program.len() > 0 {
        lemma_collect_shaped(program.drop_last());
        assert forall|j: int|
            0 <= j < program.len() && head_of(#[trigger] program[j]) == Some("declare"@)
                implies items_of(program[j]).len() == 4 by {
            if j < program.len() - 1 {
                assert(program.drop_last()[j] == program[j]);
            }
        }
    }
}

/// Collects the signatures of all `declare` forms of a program.
pub fn collect_signatures(program: &[Expr]) -> (r: Result<Table<(Vec<Type>, Type)>, BestError>)
    ensures
        match r {
            Ok(t) => typing::collect_signatures(nodes_of(program@))
                == Ok::<Map<Seq<char>, (Seq<Type>, Type)>, ErrorView>(signatures_of(t@)),
            Err(e) => typing::collect_signatures(nodes_of(program@))
                == Err::<Map<Seq<char>, (Seq<Type>, Type)>, ErrorView>(e@),
        },
{
    proof {
        lemma_nodes_of(program@);
    }
    let ghost nodes = nodes_of(program@);
    let mut sigs: Table<(Vec<Type>, Type)> = Table::new();
    let mut i: usize = 0;
    assert(nodes.take(0) =~= Seq::<Node>::empty());
    assert(signatures_of(sigs@) =~= Map::<Seq<char>, (Seq<Type>, Type)>::empty());
    #[verifier::loop_isolation(false)]
    while i < program.len()
        invariant
            i <= program@.len(),
            typing::collect_signatures(nodes.take(i as int))
                == Ok::<Map<Seq<char>, (Seq<Type>, Type)>, ErrorView>(signatures_of(sigs@)),
        decreases program@.len() - i,
    {
        let expr = &program[i];
        assert(nodes.take(i + 1).drop_last() =~= nodes.take(i as int));
        assert(nodes.take(i + 1).last() == expr@);
        let is_declare = match head_id(expr) {
            Some(h) => text_eq(h, "declare"),
            None => false,
        };
        if is_declare {
            let parts = items(expr).unwrap();
            proof {
                lemma_nodes_of(parts@);
            }
            if parts.len() != 4 {
                let e = BestError::at("declare expects: (declare name (param-types...) return-type)", expr.loc());
                proof {
                    lemma_collect_prefix_error(nodes, i + 1);
                }
                return Err(e);
            }
            let name = match &parts[1] {
                Expr::Id(s, _) => s.clone(),
                other => {
                    let e = BestError::at("declare: name must be an identifier", other.loc());
                    proof {
                        lemma_collect_prefix_error(nodes, i + 1);
                    }
                    return Err(e);
                },
            };
            let param_types = match parse_type_list(&parts[2]) {
                Ok(v) => v,
                Err(e) => {
                    proof {
                        lemma_collect_prefix_error(nodes, i + 1);
                    }
                    return Err(e);
                },
            };
            let ret_type = match parse_single_type(&parts[3]) {
                Ok(t) => t,
                Err(e) => {
                    proof {
                        lemma_collect_prefix_error(nodes, i + 1);
                    }
                    return Err(e);
                },
            };
            let ghost before = sigs@;
            let ghost entry = (param_types, ret_type);
            sigs.insert(name.as_str(), (param_types, ret_type));
            assert(signatures_of(sigs@) =~= signatures_of(before).insert(name@, (entry.0@, entry.1)));
        }
        i = i + 1;
    }
    assert(nodes.take(i as int) =~= nodes);
    Ok(sigs)
}

/// A declaration waiting for its `defun`: name, parameter types, return
/// type and position.
pub type PendingDecl = (String, Vec<Type>, Type, Loc);

/// The mathematical value of a pending declaration.
pub open spec fn pending_of(p: Option<PendingDecl>) -> Option<Pending> {
    match p {
        Some(d) => Some(Pending { name: d.0@, params: d.1@, ret: d.2, loc: d.3 }),
        None => None,
    }
}

fn not_followed_error(name: &String, loc: &Loc, rest: &str) -> (e: BestError)
    ensures
        e@ == err_at("declare for "@ + quoted(name@) + rest@, *loc),
{
    let mut m = String::from_str("declare for ");
    push_quoted(&mut m, name.as_str());
    m.append(rest);
    error_at(m, loc)
}

/// Checks a `defun` form against the pending declaration, with `parts` its items.
fn check_defun_form(expr: &Expr, parts: &Vec<Expr>, env: &mut TypeEnv, pending: Option<PendingDecl>) -> (r: Result<(), BestError>)
    requires
        items_of(expr@) == nodes_of(parts@),
        old(env)@.frames.len() == 1,
    ensures
        r is Ok ==> final(env)@.frames.len() == 1,
        match r {
            Ok(()) => check_defun(expr@, old(env)@, pending_of(pending)) == Ok::<TypeEnvView, ErrorView>(final(env)@),
            Err(e) => check_defun(expr@, old(env)@, pending_of(pending)) == Err::<TypeEnvView, ErrorView>(e@),
        },
{
    proof {
        lemma_nodes_of(parts@);
        lemma_let_free_items(nodes_of(parts@));
        lemma_let_names_items(nodes_of(parts@));
    }
    if parts.len() != 4 {
        return Err(BestError::at("defun expects: (defun name (params...) body)", expr.loc()));
    }
    let def_name = match &parts[1] {
        Expr::Id(s, _) => s,
        other => {
            return Err(BestError::at("defun: name must be an identifier", other.loc()));
        },
    };
    let (decl_name, param_types, ret_type, _) = match pending {
        Some(p) => p,
        None => {
            let mut m = String::from_str("defun ");
            push_quoted(&mut m, def_name.as_str());
            m.append(" has no preceding declare");
            return Err(error_at(m, expr.loc()));
        },
    };
    if !(decl_name == *def_name) {
        let mut m = String::from_str("declare/defun name mismatch: ");
        push_quoted(&mut m, decl_name.as_str());
        m.append(" vs ");
        push_quoted(&mut m, def_name.as_str());
        assert(m@ =~= "declare/defun name mismatch: "@ + quoted(decl_name@) + " vs "@ + quoted(def_name@));
        return Err(error_at(m, expr.loc()));
    }
    let param_names = parse_param_names(&parts[2])?;
    if param_names.len() != param_types.len() {
        let mut m = String::from_str("defun ");
        push_quoted(&mut m, def_name.as_str());
        m.append(": declared ");
        m.append(format_u64(param_types.len() as u64).as_str());
        m.append(" params but defined ");
        m.append(format_u64(param_names.len() as u64).as_str());
        assert(m@ =~= "defun "@ + quoted(def_name@) + ": declared "@ + decimal(param_types@.len())
            + " params but defined "@ + decimal(names_of(param_names@).len()));
        return Err(error_at(m, expr.loc()));
    }
    let ghost env0 = env@;
    let saved = env.take_frames();
    env.push_frame();
    let ghost names = names_of(param_names@);
    let mut k: usize = 0;
    assert(names.take(0) =~= Seq::<Seq<char>>::empty());
    assert(env@.frames =~= seq![bind_all(Map::empty(), names.take(0), param_types@)]);
    while k < param_names.len()
        invariant
            k <= param_names@.len(),
            param_names@.len() == param_types@.len(),
            names == names_of(param_names@),
            env@.funs == env0.funs,
            env@.frames == seq![bind_all(Map::empty(), names.take(k as int), param_types@)],
        decreases param_names@.len() - k,
    {
        env.declare_var(param_names[k].as_str(), param_types[k]);
        assert(names.take(k + 1).drop_last() =~= names.take(k as int));
        k = k + 1;
        assert(env@.frames =~= seq![bind_all(Map::empty(), names.take(k as int), param_types@)]);
    }
    assert(names.take(k as int) =~= names);
    assert(env@ == typing::body_env(names, param_types@, env0.funs));
    let r_body = check_expr(&parts[3], env, Some(&ret_type));
    env.restore_frames(saved);
    assert(env@ == env0);
    let body_ty = r_body?;
    if body_ty != ret_type {
        let mut m = String::from_str("function ");
        push_quoted(&mut m, def_name.as_str());
        let rest = two_types_msg(" body has type ", body_ty, " but declared return type ", ret_type);
        m.append(rest.as_str());
        assert(m@ =~= "function "@ + quoted(def_name@) + " body has type "@ + quoted(type_text(body_ty))
            + " but declared return type "@ + quoted(type_text(ret_type)));
        return Err(error_at(m, parts[3].loc()));
    }
    Ok(())
}

/// Type-checks a whole program: collects every signature first, so that
/// forward calls and mutual recursion are allowed, then checks the forms in
/// order; each `declare` must be immediately followed by the `defun` of the
/// same name.
pub fn typecheck(program: &[Expr]) -> (r: Result<(), BestError>)
    ensures
        match r {
            Ok(()) => typecheck_program(nodes_of(program@)) == Ok::<(), ErrorView>(())
                && program_shaped(nodes_of(program@)),
            Err(e) => typecheck_program(nodes_of(program@)) == Err::<(), ErrorView>(e@),
        },
{
    proof {
        lemma_nodes_of(program@);
    }
    let ghost nodes = nodes_of(program@);
    let sigs = collect_signatures(program)?;
    proof {
        lemma_collect_shaped(nodes);
    }
    let mut env = TypeEnv::new(sigs);
    let mut pending: Option<PendingDecl> = None;
    let mut i: usize = 0;
    assert(env@ == TypeEnvView { frames: seq![Map::<Seq<char>, Type>::empty()], funs: env@.funs });
    #[verifier::loop_isolation(false)]
    while i < program.len()
        invariant
            i <= program@.len(),
            env@.frames.len() == 1,
            typecheck_program(nodes) == check_forms(nodes, i as int, env@, pending_of(pending)),
        decreases program@.len() - i,
    {
        let expr = &program[i];
        let head = head_id(expr);
        let is_declare = match head {
            Some(h) => text_eq(h, "declare"),
            None => false,
        };
        let is_defun = match head {
            Some(h) => text_eq(h, "defun"),
            None => false,
        };
        if is_declare {
            if let Some((name, _, _, loc)) = &pending {
                return Err(not_followed_error(name, loc, " must be immediately followed by defun"));
            }
            let parts = items(expr).unwrap();
            proof {
                lemma_nodes_of(parts@);
            }
            let name = match &parts[1] {
                Expr::Id(s, _) => s.clone(),
                other => {
                    return Err(BestError::at("declare: name must be an identifier", other.loc()));
                },
            };
            let param_types = parse_type_list(&parts[2])?;
            let ret_type = parse_single_type(&parts[3])?;
            pending = Some((name, param_types, ret_type, *expr.loc()));
        } else if is_defun {
            let parts = items(expr).unwrap();
            let taken = pending;
            pending = None;
            check_defun_form(expr, parts, &mut env, taken)?;
        } else {
            if let Some((name, _, _, loc)) = &pending {
                return Err(not_followed_error(name, loc, " must be immediately followed by defun"));
            }
            let _ = check_expr(expr, &mut env, None)?;
        }
        i = i + 1;
    }
    if let Some((name, _, _, loc)) = &pending {
        return Err(not_followed_error(name, loc, " has no corresponding defun"));
    }
    proof {
        lemma_checked_program_shaped(nodes);
    }
    Ok(())
}

} // verus!

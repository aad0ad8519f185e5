//! The typing rules, as mathematical functions.
use vstd::prelude::*;

use crate::ast::{Node, loc_of};
use crate::env::{TypeEnvView, frames_lookup, undefined_variable, undefined_function};
use crate::error::{ErrorView, Loc, err_at};
use crate::text::decimal;
use crate::types::{Type, type_from_name, type_text};

verus! {

/// The outcome of checking an expression: its type and the environment
/// after it (a `let` adds a variable), or the first error found.
pub type Checked = Result<(Type, TypeEnvView), ErrorView>;

/// `'<text>'`
pub open spec fn quoted(s: Seq<char>) -> Seq<char> {
    "'"@ + s + "'"@
}

/// The environment with `name` given type `ty` in the innermost scope.
pub open spec fn declare(env: TypeEnvView, name: Seq<char>, ty: Type) -> TypeEnvView {
    TypeEnvView {
        frames: env.frames.update(env.frames.len() - 1, env.frames.last().insert(name, ty)),
        funs: env.funs,
    }
}

/// The name held by an identifier, or the error `<context> must be an identifier`.
pub open spec fn require_id(e: Node, context: Seq<char>) -> Result<Seq<char>, ErrorView> {
    match e {
        Node::Id(s, _) => Ok(s),
        _ => Err(err_at(context + " must be an identifier"@, loc_of(e))),
    }
}

/// The type a type-name node denotes, or the error `<context> must be a type name`.
pub open spec fn require_type(e: Node, context: Seq<char>) -> Result<Type, ErrorView> {
    match e {
        Node::TypeName(s, l) => type_from_name(s, l),
        _ => Err(err_at(context + " must be a type name"@, loc_of(e))),
    }
}

/// `'<op>' expects exactly two arguments`
pub open spec fn two_args_msg(op: Seq<char>) -> Seq<char> {
    quoted(op) + " expects exactly two arguments"@
}

/// `'<op>' operands have different types: '<l>' vs '<r>'`
pub open spec fn operand_mismatch_msg(op: Seq<char>, l: Type, r: Type) -> Seq<char> {
    quoted(op) + " operands have different types: "@ + quoted(type_text(l)) + " vs "@ + quoted(type_text(r))
}

/// `'<op>' requires numeric operands, got '<t>'`
pub open spec fn numeric_msg(op: Seq<char>, t: Type) -> Seq<char> {
    quoted(op) + " requires numeric operands, got "@ + quoted(type_text(t))
}

pub open spec fn is_numeric(t: Type) -> bool {
    t == Type::Int || t == Type::Float
}

/// The operators `+ - * /`.
pub open spec fn is_arith_op(op: Seq<char>) -> bool {
    op == "+"@ || op == "-"@ || op == "*"@ || op == "/"@
}

/// The operators `== !=`.
pub open spec fn is_eq_op(op: Seq<char>) -> bool {
    op == "=="@ || op == "!="@
}

/// The operators `< > <= >=`.
pub open spec fn is_ord_op(op: Seq<char>) -> bool {
    op == "<"@ || op == ">"@ || op == "<="@ || op == ">="@
}

/// The operators `and or`.
pub open spec fn is_logic_op(op: Seq<char>) -> bool {
    op == "and"@ || op == "or"@
}

/// The type of an expression, by the rules of the language, in environment `env`.
pub open spec fn check_node(e: Node, env: TypeEnvView) -> Checked
    decreases e, 0nat,
{
    match e {
        Node::Int(_, _) => Ok((Type::Int, env)),
        Node::Float(_, _) => Ok((Type::Float, env)),
        Node::Bool(_, _) => Ok((Type::Bool, env)),
        Node::Str(_, _) => Ok((Type::Str, env)),
        Node::TypeName(_, loc) => Err(err_at("type name used in expression position"@, loc)),
        Node::Id(name, loc) => match frames_lookup(env.frames, name) {
            Some(t) => Ok((t, env)),
            None => Err(undefined_variable(name, loc)),
        },
        Node::List(parts, loc) => {
            if parts.len() == 0 {
                Err(err_at("empty list is not a valid expression"@, loc))
            } else {
                match parts[0] {
                    Node::Id(op, _) => check_list(op, parts, loc, env),
                    _ => Err(err_at("list head must be an identifier"@, loc_of(parts[0]))),
                }
            }
        },
    }
}

/// The type of the list `parts` headed by the identifier `op`.
pub open spec fn check_list(op: Seq<char>, parts: Seq<Node>, loc: Loc, env: TypeEnvView) -> Checked
    decreases parts, parts.len() + 3,
{
    if op == "let"@ {
        check_let(parts, loc, env)
    } else if op == "assign"@ {
        check_assign(parts, loc, env)
    } else if op == "if"@ {
        check_if(parts, loc, env)
    } else if op == "while"@ {
        check_while(parts, loc, env)
    } else if op == "print"@ {
        check_print(parts, loc, env)
    } else if op == "defun"@ || op == "declare"@ {
        Err(err_at(quoted(op) + " is only allowed at top level"@, loc))
    } else if is_arith_op(op) || is_eq_op(op) || is_ord_op(op) {
        check_binary(op, parts, loc, env)
    } else if is_logic_op(op) {
        check_logic(op, parts, loc, env)
    } else if op == "not"@ {
        check_not(parts, loc, env)
    } else if op == "concat"@ {
        check_concat(parts, loc, env)
    } else if op == "length"@ {
        check_length(parts, loc, env)
    } else {
        check_call(op, parts, loc, env)
    }
}

/// `(let name type value)`: declares `name` in the innermost scope; a
/// visible variable keeps its type, so a `let` cannot give it another.
pub open spec fn check_let(parts: Seq<Node>, loc: Loc, env: TypeEnvView) -> Checked
    decreases parts, parts.len() + 2,
{
    if parts.len() != 4 {
        Err(err_at("let expects: (let name type value)"@, loc))
    } else {
        match require_id(parts[1], "let: variable name"@) {
            Err(e) => Err(e),
            Ok(name) => match require_type(parts[2], "let: type"@) {
                Err(e) => Err(e),
                Ok(ty) => match check_node(parts[3], env) {
                    Err(e) => Err(e),
                    Ok((vt, env1)) => if vt != ty {
                        Err(err_at(
                            "let "@ + quoted(name) + ": value type "@ + quoted(type_text(vt))
                                + " does not match declared type "@ + quoted(type_text(ty)),
                            loc_of(parts[3]),
                        ))
                    } else {
                        match frames_lookup(env1.frames, name) {
                            Some(old_ty) => if old_ty != ty {
                                Err(err_at(retype_msg(name, old_ty), loc_of(parts[1])))
                            } else {
                                Ok((Type::Void, declare(env1, name, ty)))
                            },
                            None => Ok((Type::Void, declare(env1, name, ty))),
                        }
                    },
                },
            },
        }
    }
}

/// `let '<name>': variable already has type '<type>'`
pub open spec fn retype_msg(name: Seq<char>, ty: Type) -> Seq<char> {
    "let "@ + quoted(name) + ": variable already has type "@ + quoted(type_text(ty))
}

/// The environment with a new, empty innermost scope, in which the
/// declarations of a branch or a loop body are made and then dropped.
pub open spec fn push_scope(env: TypeEnvView) -> TypeEnvView {
    TypeEnvView { frames: env.frames.push(Map::empty()), funs: env.funs }
}

/// `(assign name value)`: the value must have the variable's type.
pub open spec fn check_assign(parts: Seq<Node>, loc: Loc, env: TypeEnvView) -> Checked
    decreases parts, parts.len() + 2,
{
    if parts.len() != 3 {
        Err(err_at("assign expects: (assign name value)"@, loc))
    } else {
        match require_id(parts[1], "assign: variable name"@) {
            Err(e) => Err(e),
            Ok(name) => match frames_lookup(env.frames, name) {
                None => Err(undefined_variable(name, loc_of(parts[1]))),
                Some(var_ty) => match check_node(parts[2], env) {
                    Err(e) => Err(e),
                    Ok((vt, env1)) => if vt != var_ty {
                        Err(err_at(
                            "assign "@ + quoted(name) + ": value type "@ + quoted(type_text(vt))
                                + " does not match variable type "@ + quoted(type_text(var_ty)),
                            loc_of(parts[2]),
                        ))
                    } else {
                        Ok((Type::Void, env1))
                    },
                },
            },
        }
    }
}

/// `(if cond then else)`: a bool condition and two branches of one type;
/// what a branch declares is dropped after it, as the branch may not run.
pub open spec fn check_if(parts: Seq<Node>, loc: Loc, env: TypeEnvView) -> Checked
    decreases parts, parts.len() + 2,
{
    if parts.len() != 4 {
        Err(err_at("if expects: (if cond then else)"@, loc))
    } else {
        match check_node(parts[1], env) {
            Err(e) => Err(e),
            Ok((ct, env1)) => if ct != Type::Bool {
                Err(err_at("if condition must be bool, got "@ + quoted(type_text(ct)), loc_of(parts[1])))
            } else {
                match check_node(parts[2], push_scope(env1)) {
                    Err(e) => Err(e),
                    Ok((tt, _)) => match check_node(parts[3], push_scope(env1)) {
                        Err(e) => Err(e),
                        Ok((et, _)) => if tt != et {
                            Err(err_at(
                                "if branches have different types: "@ + quoted(type_text(tt)) + " vs "@
                                    + quoted(type_text(et)),
                                loc,
                            ))
                        } else {
                            Ok((tt, env1))
                        },
                    },
                }
            },
        }
    }
}

/// Checks `parts[i..]` in order, each in the environment the previous left.
pub open spec fn check_seq(parts: Seq<Node>, i: int, env: TypeEnvView) -> Result<TypeEnvView, ErrorView>
    decreases parts, parts.len() + 1 - i,
{
    if i < 1 || i >= parts.len() {
        Ok(env)
    } else {
        match check_node(parts[i], env) {
            Err(e) => Err(e),
            Ok((_, env1)) => check_seq(parts, i + 1, env1),
        }
    }
}

/// `(while cond body...)`: a bool condition; the loop has type void; what
/// the body declares is dropped after it, as the body may not run.
pub open spec fn check_while(parts: Seq<Node>, loc: Loc, env: TypeEnvView) -> Checked
    decreases parts, parts.len() + 2,
{
    if parts.len() < 3 {
        Err(err_at("while expects: (while cond body...)"@, loc))
    } else {
        match check_node(parts[1], env) {
            Err(e) => Err(e),
            Ok((ct, env1)) => if ct != Type::Bool {
                Err(err_at("while condition must be bool, got "@ + quoted(type_text(ct)), loc_of(parts[1])))
            } else {
                match check_seq(parts, 2, push_scope(env1)) {
                    Err(e) => Err(e),
                    Ok(_) => Ok((Type::Void, env1)),
                }
            },
        }
    }
}

/// `(print value)`: any value but a void one.
pub open spec fn check_print(parts: Seq<Node>, loc: Loc, env: TypeEnvView) -> Checked
    decreases parts, parts.len() + 2,
{
    if parts.len() != 2 {
        Err(err_at("print expects exactly one argument"@, loc))
    } else {
        match check_node(parts[1], env) {
            Err(e) => Err(e),
            Ok((t, env1)) => if t == Type::Void {
                Err(err_at("cannot print a void value"@, loc_of(parts[1])))
            } else {
                Ok((Type::Void, env1))
            },
        }
    }
}

/// Arithmetic and comparisons: two operands of one type; arithmetic and the
/// ordering tests want a numeric type; arithmetic has the operands' type,
/// comparisons type bool.
pub open spec fn check_binary(op: Seq<char>, parts: Seq<Node>, loc: Loc, env: TypeEnvView) -> Checked
    decreases parts, parts.len() + 2,
{
    if parts.len() != 3 {
        Err(err_at(two_args_msg(op), loc))
    } else {
        match check_node(parts[1], env) {
            Err(e) => Err(e),
            Ok((lt, env1)) => match check_node(parts[2], env1) {
                Err(e) => Err(e),
                Ok((rt, env2)) => if lt != rt {
                    Err(err_at(operand_mismatch_msg(op, lt, rt), loc))
                } else if is_eq_op(op) {
                    if lt == Type::Void {
                        Err(err_at(quoted(op) + " compares void values"@, loc))
                    } else {
                        Ok((Type::Bool, env2))
                    }
                } else if !is_numeric(lt) {
                    Err(err_at(numeric_msg(op, lt), loc))
                } else if is_arith_op(op) {
                    Ok((lt, env2))
                } else {
                    Ok((Type::Bool, env2))
                },
            },
        }
    }
}

/// `and`, `or`: two bool operands.
pub open spec fn check_logic(op: Seq<char>, parts: Seq<Node>, loc: Loc, env: TypeEnvView) -> Checked
    decreases parts, parts.len() + 2,
{
    if parts.len() != 3 {
        Err(err_at(two_args_msg(op), loc))
    } else {
        match check_node(parts[1], env) {
            Err(e) => Err(e),
            Ok((lt, env1)) => match check_node(parts[2], env1) {
                Err(e) => Err(e),
                Ok((rt, env2)) => if lt != Type::Bool {
                    Err(err_at(quoted(op) + " left operand must be bool, got "@ + quoted(type_text(lt)), loc))
                } else if rt != Type::Bool {
                    Err(err_at(quoted(op) + " right operand must be bool, got "@ + quoted(type_text(rt)), loc))
                } else {
                    Ok((Type::Bool, env2))
                },
            },
        }
    }
}

/// `(not b)`: a bool operand.
pub open spec fn check_not(parts: Seq<Node>, loc: Loc, env: TypeEnvView) -> Checked
    decreases parts, parts.len() + 2,
{
    if parts.len() != 2 {
        Err(err_at("not expects exactly one argument"@, loc))
    } else {
        match check_node(parts[1], env) {
            Err(e) => Err(e),
            Ok((t, env1)) => if t != Type::Bool {
                Err(err_at("not requires bool, got "@ + quoted(type_text(t)), loc))
            } else {
                Ok((Type::Bool, env1))
            },
        }
    }
}

/// `(concat a b)`: two str operands.
pub open spec fn check_concat(parts: Seq<Node>, loc: Loc, env: TypeEnvView) -> Checked
    decreases parts, parts.len() + 2,
{
    if parts.len() != 3 {
        Err(err_at("concat expects exactly two arguments"@, loc))
    } else {
        match check_node(parts[1], env) {
            Err(e) => Err(e),
            Ok((lt, env1)) => match check_node(parts[2], env1) {
                Err(e) => Err(e),
                Ok((rt, env2)) => if lt != Type::Str {
                    Err(err_at("concat left operand must be str, got "@ + quoted(type_text(lt)), loc))
                } else if rt != Type::Str {
                    Err(err_at("concat right operand must be str, got "@ + quoted(type_text(rt)), loc))
                } else {
                    Ok((Type::Str, env2))
                },
            },
        }
    }
}

/// `(length s)`: a str operand; the result is an int.
pub open spec fn check_length(parts: Seq<Node>, loc: Loc, env: TypeEnvView) -> Checked
    decreases parts, parts.len() + 2,
{
    if parts.len() != 2 {
        Err(err_at("length expects exactly one argument"@, loc))
    } else {
        match check_node(parts[1], env) {
            Err(e) => Err(e),
            Ok((t, env1)) => if t != Type::Str {
                Err(err_at("length requires str, got "@ + quoted(type_text(t)), loc))
            } else {
                Ok((Type::Int, env1))
            },
        }
    }
}

/// Checks the arguments `parts[i..]` of a call of `name` against the
/// parameter types `params` (argument `parts[i]` against `params[i - 1]`).
pub open spec fn check_args(name: Seq<char>, parts: Seq<Node>, i: int, params: Seq<Type>, env: TypeEnvView) -> Result<TypeEnvView, ErrorView>
    decreases parts, parts.len() + 1 - i,
{
    if i < 1 || i >= parts.len() {
        Ok(env)
    } else {
        match check_node(parts[i], env) {
            Err(e) => Err(e),
            Ok((got, env1)) => if got != params[i - 1] {
                Err(err_at(
                    "function "@ + quoted(name) + " argument "@ + decimal(i as nat) + ": expected "@
                        + quoted(type_text(params[i - 1])) + ", got "@ + quoted(type_text(got)),
                    loc_of(parts[i]),
                ))
            } else {
                check_args(name, parts, i + 1, params, env1)
            },
        }
    }
}

/// A call of a declared function: the arguments must match its parameter
/// types in number and type; the call has its return type.
pub open spec fn check_call(name: Seq<char>, parts: Seq<Node>, loc: Loc, env: TypeEnvView) -> Checked
    decreases parts, parts.len() + 2,
{
    if !env.funs.contains_key(name) {
        Err(undefined_function(name, loc))
    } else {
        let (params, ret) = env.funs[name];
        if parts.len() - 1 != params.len() {
            Err(err_at(
                "function "@ + quoted(name) + " expects "@ + decimal(params.len()) + " argument(s), got "@
                    + decimal((parts.len() - 1) as nat),
                loc,
            ))
        } else {
            match check_args(name, parts, 1, params, env) {
                Err(e) => Err(e),
                Ok(env1) => Ok((ret, env1)),
            }
        }
    }
}

/// Lengths and first characters of the keywords, which tell them apart.
pub proof fn lemma_keywords()
    ensures
        "declare"@.len() == 7 && "declare"@[0] == 'd',
        "defun"@.len() == 5 && "defun"@[0] == 'd',
        "let"@.len() == 3 && "let"@[0] == 'l',
        "assign"@.len() == 6 && "assign"@[0] == 'a',
        "if"@.len() == 2 && "if"@[0] == 'i',
        "while"@.len() == 5 && "while"@[0] == 'w',
        "print"@.len() == 5 && "print"@[0] == 'p',
        "and"@.len() == 3 && "and"@[0] == 'a',
        "or"@.len() == 2 && "or"@[0] == 'o',
        "not"@.len() == 3 && "not"@[0] == 'n',
        "concat"@.len() == 6 && "concat"@[0] == 'c',
        "length"@.len() == 6 && "length"@[0] == 'l',
{
    reveal_strlit("declare");
    reveal_strlit("defun");
    reveal_strlit("let");
    reveal_strlit("assign");
    reveal_strlit("if");
    reveal_strlit("while");
    reveal_strlit("print");
    reveal_strlit("and");
    reveal_strlit("or");
    reveal_strlit("not");
    reveal_strlit("concat");
    reveal_strlit("length");
}

/// The names that the `let` forms in `e` declare, at any depth.
pub open spec fn let_names(e: Node) -> Set<Seq<char>>
    decreases e, 0int,
{
    match e {
        Node::List(parts, _) => if parts.len() > 0 && parts[0] is Id && parts[0]->Id_0 == "let"@ {
            let_names_from(parts, 0).union(let_target(parts))
        } else {
            let_names_from(parts, 0)
        },
        _ => Set::empty(),
    }
}

/// The variable that a `let` with items `parts` names, if any.
pub open spec fn let_target(parts: Seq<Node>) -> Set<Seq<char>> {
    if parts.len() > 1 && parts[1] is Id {
        Set::empty().insert(parts[1]->Id_0)
    } else {
        Set::empty()
    }
}

/// The names that the `let` forms in `parts[i..]` declare, at any depth.
pub open spec fn let_names_from(parts: Seq<Node>, i: int) -> Set<Seq<char>>
    decreases parts, parts.len() + 1 - i,
{
    if i < 0 || i >= parts.len() {
        Set::empty()
    } else {
        let_names(parts[i]).union(let_names_from(parts, i + 1))
    }
}

/// The names an item of a list declares are among those the list declares.
pub proof fn lemma_let_names_items(parts: Seq<Node>)
    ensures
        forall|j: int, k: Seq<char>| 0 <= j < parts.len() && #[trigger] let_names(parts[j]).contains(k)
            ==> let_names_from(parts, 0).contains(k),
{
    assert forall|j: int, k: Seq<char>| 0 <= j < parts.len() && #[trigger] let_names(parts[j]).contains(k)
        implies let_names_from(parts, 0).contains(k) by {
        lemma_let_names_from(parts, 0, j, k);
    }
}

proof fn lemma_let_names_from(parts: Seq<Node>, i: int, j: int, k: Seq<char>)
    requires
        0 <= i <= j < parts.len(),
        let_names(parts[j]).contains(k),
    ensures
        let_names_from(parts, i).contains(k),
    decreases j - i,
{
    if i < j {
        lemma_let_names_from(parts, i + 1, j, k);
    }
}

/// The checker scopes after a check are those before, but for the bindings
/// of the names in `names` in the innermost scope: the number of scopes,
/// the signatures, the outer scopes and every other binding are kept.
pub open spec fn kept_but(before: TypeEnvView, after: TypeEnvView, names: Set<Seq<char>>) -> bool {
    &&& after.frames.len() == before.frames.len()
    &&& after.funs == before.funs
    &&& forall|i: int| 0 <= i < before.frames.len() - 1 ==> #[trigger] after.frames[i] == before.frames[i]
    &&& forall|k: Seq<char>| !names.contains(k)
        ==> (#[trigger] after.frames.last().contains_key(k) <==> before.frames.last().contains_key(k))
    &&& forall|k: Seq<char>| !names.contains(k) && #[trigger] before.frames.last().contains_key(k)
        ==> after.frames.last()[k] == before.frames.last()[k]
}

/// Keeping all but some names is transitive, and holds of larger sets.
pub proof fn lemma_kept_but_trans(a: TypeEnvView, b: TypeEnvView, c: TypeEnvView, s1: Set<Seq<char>>, s2: Set<Seq<char>>, s: Set<Seq<char>>)
    requires
        kept_but(a, b, s1),
        kept_but(b, c, s2),
        forall|k: Seq<char>| #[trigger] s1.contains(k) ==> s.contains(k),
        forall|k: Seq<char>| #[trigger] s2.contains(k) ==> s.contains(k),
    ensures
        kept_but(a, c, s),
{
    assert forall|i: int| 0 <= i < a.frames.len() - 1 implies #[trigger] c.frames[i] == a.frames[i] by {
        assert(b.frames[i] == a.frames[i]);
    }
    assert forall|k: Seq<char>| !s.contains(k)
        implies (#[trigger] c.frames.last().contains_key(k) <==> a.frames.last().contains_key(k)) by {
        assert(!s1.contains(k) && !s2.contains(k));
        assert(b.frames.last().contains_key(k) <==> a.frames.last().contains_key(k));
    }
    assert forall|k: Seq<char>| !s.contains(k) && #[trigger] a.frames.last().contains_key(k)
        implies c.frames.last()[k] == a.frames.last()[k] by {
        assert(!s1.contains(k) && !s2.contains(k));
        assert(b.frames.last().contains_key(k));
    }
}

/// Whether a `let` form occurs in `e`, at any depth.
pub open spec fn has_let(e: Node) -> bool
    decreases e, 0int,
{
    match e {
        Node::List(parts, _) => (parts.len() > 0 && parts[0] is Id && parts[0]->Id_0 == "let"@)
            || has_let_from(parts, 0),
        _ => false,
    }
}

/// Whether a `let` form occurs in `parts[i..]`, at any depth.
pub open spec fn has_let_from(parts: Seq<Node>, i: int) -> bool
    decreases parts, parts.len() + 1 - i,
{
    if i < 0 || i >= parts.len() {
        false
    } else {
        has_let(parts[i]) || has_let_from(parts, i + 1)
    }
}

/// Whether a `let` form occurs strictly inside `e`.
pub open spec fn has_let_below(e: Node) -> bool {
    match e {
        Node::List(parts, _) => has_let_from(parts, 0),
        _ => false,
    }
}

/// No item of a list free of `let` holds a `let`.
pub proof fn lemma_let_free_items(parts: Seq<Node>)
    ensures
        !has_let_from(parts, 0) ==> forall|j: int| 0 <= j < parts.len() ==> !has_let(#[trigger] parts[j]),
{
    assert forall|j: int| 0 <= j < parts.len() && !has_let_from(parts, 0) implies !has_let(#[trigger] parts[j]) by {
        lemma_let_free_from(parts, 0, j);
    }
}

proof fn lemma_let_free_from(parts: Seq<Node>, i: int, j: int)
    requires
        0 <= i <= j < parts.len(),
        !has_let_from(parts, i),
    ensures
        !has_let(parts[j]),
    decreases j - i,
{
    if i < j {
        lemma_let_free_from(parts, i + 1, j);
    }
}

/* -- Programs ------------------------------------------------------------- */

/// The name at the head of a list whose first item is an identifier.
pub open spec fn head_of(e: Node) -> Option<Seq<char>> {
    match e {
        Node::List(parts, _) => if parts.len() > 0 {
            match parts[0] {
                Node::Id(s, _) => Some(s),
                _ => None,
            }
        } else {
            None
        },
        _ => None,
    }
}

/// The items of a list node (none for any other node).
pub open spec fn items_of(e: Node) -> Seq<Node> {
    match e {
        Node::List(parts, _) => parts,
        _ => Seq::empty(),
    }
}

/// A type-name node read as a type.
pub open spec fn parse_single_type(e: Node) -> Result<Type, ErrorView> {
    match e {
        Node::TypeName(s, l) => type_from_name(s, l),
        _ => Err(err_at("expected a type name"@, loc_of(e))),
    }
}

/// Type names read as types, the first error (from the left) winning.
pub open spec fn parse_types(items: Seq<Node>) -> Result<Seq<Type>, ErrorView>
    decreases items.len(),
{
    if items.len() == 0 {
        Ok(Seq::empty())
    } else {
        match parse_types(items.drop_last()) {
            Err(e) => Err(e),
            Ok(ts) => match parse_single_type(items.last()) {
                Err(e) => Err(e),
                Ok(t) => Ok(ts.push(t)),
            },
        }
    }
}

/// A list of type names read as a list of types.
pub open spec fn parse_type_list(e: Node) -> Result<Seq<Type>, ErrorView> {
    match e {
        Node::List(items, _) => parse_types(items),
        _ => Err(err_at("expected a list of types"@, loc_of(e))),
    }
}

/// Identifiers read as names, the first error (from the left) winning.
pub open spec fn parse_names(items: Seq<Node>) -> Result<Seq<Seq<char>>, ErrorView>
    decreases items.len(),
{
    if items.len() == 0 {
        Ok(Seq::empty())
    } else {
        match parse_names(items.drop_last()) {
            Err(e) => Err(e),
            Ok(ns) => match items.last() {
                Node::Id(s, _) => Ok(ns.push(s)),
                _ => Err(err_at("parameter must be an identifier"@, loc_of(items.last()))),
            },
        }
    }
}

/// A parameter list read as the parameters' names.
pub open spec fn parse_param_names(e: Node) -> Result<Seq<Seq<char>>, ErrorView> {
    match e {
        Node::List(items, _) => parse_names(items),
        _ => Err(err_at("expected parameter list"@, loc_of(e))),
    }
}

/// The signature that `(declare name (param-types...) ret-type)` gives: its
/// name, parameter types and return type.
pub open spec fn declared_signature(e: Node) -> Result<(Seq<char>, Seq<Type>, Type), ErrorView> {
    let parts = items_of(e);
    match parts[1] {
        Node::Id(name, _) => match parse_type_list(parts[2]) {
            Err(err) => Err(err),
            Ok(params) => match parse_single_type(parts[3]) {
                Err(err) => Err(err),
                Ok(ret) => Ok((name, params, ret)),
            },
        },
        _ => Err(err_at("declare: name must be an identifier"@, loc_of(parts[1]))),
    }
}

/// The signatures of all `declare` forms of a program, a later declaration of
/// a name replacing an earlier one; a malformed `declare` is an error.
pub open spec fn collect_signatures(program: Seq<Node>) -> Result<Map<Seq<char>, (Seq<Type>, Type)>, ErrorView>
    decreases program.len(),
{
    if program.len() == 0 {
        Ok(Map::empty())
    } else {
        match collect_signatures(program.drop_last()) {
            Err(e) => Err(e),
            Ok(sigs) => {
                let e = program.last();
                if head_of(e) != Some("declare"@) {
                    Ok(sigs)
                } else if items_of(e).len() != 4 {
                    Err(err_at("declare expects: (declare name (param-types...) return-type)"@, loc_of(e)))
                } else {
                    match declared_signature(e) {
                        Err(err) => Err(err),
                        Ok((name, params, ret)) => Ok(sigs.insert(name, (params, ret))),
                    }
                }
            },
        }
    }
}

/// A `declare` that still waits for its `defun`: name, parameter types,
/// return type and position.
pub struct Pending {
    pub name: Seq<char>,
    pub params: Seq<Type>,
    pub ret: Type,
    pub loc: Loc,
}

/// The scope that binds each name of `names` to the type at the same
/// position of `types`, on top of `m`.
pub open spec fn bind_all(m: Map<Seq<char>, Type>, names: Seq<Seq<char>>, types: Seq<Type>) -> Map<Seq<char>, Type>
    decreases names.len(),
{
    if names.len() == 0 {
        m
    } else {
        bind_all(m, names.drop_last(), types).insert(names.last(), types[names.len() - 1])
    }
}

/// `declare for '<name>' must be immediately followed by defun`
pub open spec fn not_followed(p: Pending) -> ErrorView {
    err_at("declare for "@ + quoted(p.name) + " must be immediately followed by defun"@, p.loc)
}

/// The environment in which the body of a function is checked: one scope
/// holding its parameters, so that the body reads no variable but its own.
pub open spec fn body_env(names: Seq<Seq<char>>, types: Seq<Type>, funs: Map<Seq<char>, (Seq<Type>, Type)>) -> TypeEnvView {
    TypeEnvView { frames: seq![bind_all(Map::empty(), names, types)], funs }
}

/// A `defun` form, checked against the pending declaration; its body sees
/// its parameters and the variables it declares itself, and nothing else.
pub open spec fn check_defun(e: Node, env: TypeEnvView, pending: Option<Pending>) -> Result<TypeEnvView, ErrorView> {
    let parts = items_of(e);
    if parts.len() != 4 {
        Err(err_at("defun expects: (defun name (params...) body)"@, loc_of(e)))
    } else {
        match parts[1] {
            Node::Id(def_name, _) => match pending {
                None => Err(err_at("defun "@ + quoted(def_name) + " has no preceding declare"@, loc_of(e))),
                Some(p) => if p.name != def_name {
                    Err(err_at(
                        "declare/defun name mismatch: "@ + quoted(p.name) + " vs "@ + quoted(def_name),
                        loc_of(e),
                    ))
                } else {
                    match parse_param_names(parts[2]) {
                        Err(err) => Err(err),
                        Ok(names) => if names.len() != p.params.len() {
                            Err(err_at(
                                "defun "@ + quoted(def_name) + ": declared "@ + decimal(p.params.len())
                                    + " params but defined "@ + decimal(names.len()),
                                loc_of(e),
                            ))
                        } else {
                            match check_node(parts[3], body_env(names, p.params, env.funs)) {
                                Err(err) => Err(err),
                                Ok((body_ty, _)) => if body_ty != p.ret {
                                    Err(err_at(
                                        "function "@ + quoted(def_name) + " body has type "@
                                            + quoted(type_text(body_ty)) + " but declared return type "@
                                            + quoted(type_text(p.ret)),
                                        loc_of(parts[3]),
                                    ))
                                } else {
                                    Ok(env)
                                },
                            }
                        },
                    }
                },
            },
            _ => Err(err_at("defun: name must be an identifier"@, loc_of(parts[1]))),
        }
    }
}

/// One top-level form: a `declare` becomes pending, a `defun` must match the
/// pending declaration, anything else is checked as an expression.
pub open spec fn check_top(e: Node, env: TypeEnvView, pending: Option<Pending>) -> Result<(TypeEnvView, Option<Pending>), ErrorView> {
    if head_of(e) == Some("declare"@) {
        match pending {
            Some(p) => Err(not_followed(p)),
            None => match declared_signature(e) {
                Err(err) => Err(err),
                Ok((name, params, ret)) => Ok((env, Some(Pending { name, params, ret, loc: loc_of(e) }))),
            },
        }
    } else if head_of(e) == Some("defun"@) {
        match check_defun(e, env, pending) {
            Err(err) => Err(err),
            Ok(env1) => Ok((env1, None)),
        }
    } else {
        match pending {
            Some(p) => Err(not_followed(p)),
            None => match check_node(e, env) {
                Err(err) => Err(err),
                Ok((_, env1)) => Ok((env1, None)),
            },
        }
    }
}

/// The forms `program[i..]` checked in order.
pub open spec fn check_forms(program: Seq<Node>, i: int, env: TypeEnvView, pending: Option<Pending>) -> Result<(), ErrorView>
    decreases program.len() - i,
{
    if i >= program.len() {
        match pending {
            Some(p) => Err(err_at("declare for "@ + quoted(p.name) + " has no corresponding defun"@, p.loc)),
            None => Ok(()),
        }
    } else {
        match check_top(program[i], env, pending) {
            Err(err) => Err(err),
            Ok((env1, pending1)) => check_forms(program, i + 1, env1, pending1),
        }
    }
}

/// Whether a program is well typed: all signatures are collected first, then
/// the forms are checked in order in one global scope.
pub open spec fn typecheck_program(program: Seq<Node>) -> Result<(), ErrorView> {
    match collect_signatures(program) {
        Err(e) => Err(e),
        Ok(sigs) => check_forms(
            program,
            0,
            TypeEnvView { frames: seq![Map::<Seq<char>, Type>::empty()], funs: sigs },
            None,
        ),
    }
}

} // verus!

//! What the built-in operators compute and when the checker accepts them,
//! stated over the values of their operands.
use vstd::prelude::*;

use crate::ast::Node;
use crate::env::TypeEnvView;
use crate::error::{ErrorView, Loc, err_at, err_msg};
use crate::semantics::{FloatArith, FloatModel, FloatTest, State, Val, eval_list, eval_node, lemma_operator_chars};
use crate::types::Type;
use crate::typing::{check_list, check_node, lemma_keywords};

verus! {

/* -- Comparisons ------------------------------------------------------------- */

/// On two ints, `< > <= >=` compare them as numbers, `==` tests whether
/// they are equal and `!=` whether they differ; the operands are evaluated
/// left to right, and the state is the one the right operand leaves.
pub proof fn law_int_comparisons(fm: FloatModel, f: nat, op: Seq<char>, parts: Seq<Node>, loc: Loc, st: State, a: i64, b: i64, st1: State, st2: State)
    requires
        eval_node(fm, f, parts[1], st) == (Ok::<Val, ErrorView>(Val::Int(a)), st1),
        eval_node(fm, f, parts[2], st1) == (Ok::<Val, ErrorView>(Val::Int(b)), st2),
    ensures
        op == "<"@ ==> eval_list(fm, f, op, parts, loc, st) == (Ok::<Val, ErrorView>(Val::Bool(a < b)), st2),
        op == ">"@ ==> eval_list(fm, f, op, parts, loc, st) == (Ok::<Val, ErrorView>(Val::Bool(a > b)), st2),
        op == "<="@ ==> eval_list(fm, f, op, parts, loc, st) == (Ok::<Val, ErrorView>(Val::Bool(a <= b)), st2),
        op == ">="@ ==> eval_list(fm, f, op, parts, loc, st) == (Ok::<Val, ErrorView>(Val::Bool(a >= b)), st2),
        op == "=="@ ==> eval_list(fm, f, op, parts, loc, st) == (Ok::<Val, ErrorView>(Val::Bool(a == b)), st2),
        op == "!="@ ==> eval_list(fm, f, op, parts, loc, st) == (Ok::<Val, ErrorView>(Val::Bool(a != b)), st2),
{
    lemma_keywords();
    lemma_operator_chars();
}

/// On two floats, each comparison asks the float model the test it names:
/// `<` less, `>` greater, `<=` at most, `>=` at least, `==` equal, `!=`
/// not equal.
pub proof fn law_float_comparisons(fm: FloatModel, f: nat, op: Seq<char>, parts: Seq<Node>, loc: Loc, st: State, a: u64, b: u64, st1: State, st2: State)
    requires
        eval_node(fm, f, parts[1], st) == (Ok::<Val, ErrorView>(Val::Float(a)), st1),
        eval_node(fm, f, parts[2], st1) == (Ok::<Val, ErrorView>(Val::Float(b)), st2),
    ensures
        op == "<"@ ==> eval_list(fm, f, op, parts, loc, st) == (Ok::<Val, ErrorView>(Val::Bool((fm.test)(FloatTest::Lt, a, b))), st2),
        op == ">"@ ==> eval_list(fm, f, op, parts, loc, st) == (Ok::<Val, ErrorView>(Val::Bool((fm.test)(FloatTest::Gt, a, b))), st2),
        op == "<="@ ==> eval_list(fm, f, op, parts, loc, st) == (Ok::<Val, ErrorView>(Val::Bool((fm.test)(FloatTest::Le, a, b))), st2),
        op == ">="@ ==> eval_list(fm, f, op, parts, loc, st) == (Ok::<Val, ErrorView>(Val::Bool((fm.test)(FloatTest::Ge, a, b))), st2),
        op == "=="@ ==> eval_list(fm, f, op, parts, loc, st) == (Ok::<Val, ErrorView>(Val::Bool((fm.test)(FloatTest::Eq, a, b))), st2),
        op == "!="@ ==> eval_list(fm, f, op, parts, loc, st) == (Ok::<Val, ErrorView>(Val::Bool((fm.test)(FloatTest::Ne, a, b))), st2),
{
    lemma_keywords();
    lemma_operator_chars();
}

/// `==` and `!=` on two bools tell whether they are equal, and whether they
/// differ.
pub proof fn law_bool_equality(fm: FloatModel, f: nat, op: Seq<char>, parts: Seq<Node>, loc: Loc, st: State, a: bool, b: bool, st1: State, st2: State)
    requires
        eval_node(fm, f, parts[1], st) == (Ok::<Val, ErrorView>(Val::Bool(a)), st1),
        eval_node(fm, f, parts[2], st1) == (Ok::<Val, ErrorView>(Val::Bool(b)), st2),
    ensures
        op == "=="@ ==> eval_list(fm, f, op, parts, loc, st) == (Ok::<Val, ErrorView>(Val::Bool(a == b)), st2),
        op == "!="@ ==> eval_list(fm, f, op, parts, loc, st) == (Ok::<Val, ErrorView>(Val::Bool(a != b)), st2),
{
    lemma_keywords();
    lemma_operator_chars();
}

/// `==` and `!=` on two strings tell whether they hold the same characters,
/// and whether they differ.
pub proof fn law_str_equality(fm: FloatModel, f: nat, op: Seq<char>, parts: Seq<Node>, loc: Loc, st: State, a: Seq<char>, b: Seq<char>, st1: State, st2: State)
    requires
        eval_node(fm, f, parts[1], st) == (Ok::<Val, ErrorView>(Val::Str(a)), st1),
        eval_node(fm, f, parts[2], st1) == (Ok::<Val, ErrorView>(Val::Str(b)), st2),
    ensures
        op == "=="@ ==> eval_list(fm, f, op, parts, loc, st) == (Ok::<Val, ErrorView>(Val::Bool(a == b)), st2),
        op == "!="@ ==> eval_list(fm, f, op, parts, loc, st) == (Ok::<Val, ErrorView>(Val::Bool(a != b)), st2),
{
    lemma_keywords();
    lemma_operator_chars();
}

/* -- Boolean logic ----------------------------------------------------------- */

/// `and` is true exactly when both operands are, `or` when at least one is;
/// both operands are evaluated.
pub proof fn law_and_or(fm: FloatModel, f: nat, op: Seq<char>, parts: Seq<Node>, loc: Loc, st: State, a: bool, b: bool, st1: State, st2: State)
    requires
        eval_node(fm, f, parts[1], st) == (Ok::<Val, ErrorView>(Val::Bool(a)), st1),
        eval_node(fm, f, parts[2], st1) == (Ok::<Val, ErrorView>(Val::Bool(b)), st2),
    ensures
        op == "and"@ ==> eval_list(fm, f, op, parts, loc, st) == (Ok::<Val, ErrorView>(Val::Bool(a && b)), st2),
        op == "or"@ ==> eval_list(fm, f, op, parts, loc, st) == (Ok::<Val, ErrorView>(Val::Bool(a || b)), st2),
        op == "and"@ ==> (eval_list(fm, f, op, parts, loc, st).0 == Ok::<Val, ErrorView>(Val::Bool(true)) <==> a && b),
        op == "or"@ ==> (eval_list(fm, f, op, parts, loc, st).0 == Ok::<Val, ErrorView>(Val::Bool(false)) <==> !a && !b),
{
    lemma_keywords();
    lemma_operator_chars();
    if op == "and"@ || op == "or"@ {
        assert(eval_list(fm, f, op, parts, loc, st) == crate::semantics::eval_logic(fm, f, op, parts, st));
        assert(crate::semantics::eval_bool(fm, f, parts[1], op, st) == (Ok::<bool, ErrorView>(a), st1));
        assert(crate::semantics::eval_bool(fm, f, parts[2], op, st1) == (Ok::<bool, ErrorView>(b), st2));
    }
}

/// `not` turns true into false and false into true.
pub proof fn law_not(fm: FloatModel, f: nat, parts: Seq<Node>, loc: Loc, st: State, a: bool, st1: State)
    requires
        eval_node(fm, f, parts[1], st) == (Ok::<Val, ErrorView>(Val::Bool(a)), st1),
    ensures
        eval_list(fm, f, "not"@, parts, loc, st) == (Ok::<Val, ErrorView>(Val::Bool(!a)), st1),
{
    lemma_keywords();
    lemma_operator_chars();
}

/* -- Strings ----------------------------------------------------------------- */

/// `concat` gives the characters of its left operand followed by those of
/// its right operand.
pub proof fn law_concat(fm: FloatModel, f: nat, parts: Seq<Node>, loc: Loc, st: State, a: Seq<char>, b: Seq<char>, st1: State, st2: State)
    requires
        eval_node(fm, f, parts[1], st) == (Ok::<Val, ErrorView>(Val::Str(a)), st1),
        eval_node(fm, f, parts[2], st1) == (Ok::<Val, ErrorView>(Val::Str(b)), st2),
    ensures
        eval_list(fm, f, "concat"@, parts, loc, st).1 == st2,
        eval_list(fm, f, "concat"@, parts, loc, st).0 matches Ok(Val::Str(c)) && c.len() == a.len() + b.len()
            && (forall|i: int| 0 <= i < a.len() ==> c[i] == a[i])
            && (forall|i: int| 0 <= i < b.len() ==> c[a.len() + i] == b[i]),
{
    lemma_keywords();
    lemma_operator_chars();
    let c = a + b;
    assert(eval_list(fm, f, "concat"@, parts, loc, st) == (Ok::<Val, ErrorView>(Val::Str(c)), st2));
    assert forall|i: int| 0 <= i < b.len() implies c[a.len() + i] == b[i] by {}
}

/// `length` gives the number of characters of its operand.
pub proof fn law_length(fm: FloatModel, f: nat, parts: Seq<Node>, loc: Loc, st: State, a: Seq<char>, st1: State)
    requires
        eval_node(fm, f, parts[1], st) == (Ok::<Val, ErrorView>(Val::Str(a)), st1),
        a.len() <= i64::MAX,
    ensures
        eval_list(fm, f, "length"@, parts, loc, st).1 == st1,
        eval_list(fm, f, "length"@, parts, loc, st).0 matches Ok(Val::Int(n)) && n == a.len(),
{
    lemma_keywords();
    lemma_operator_chars();
}

/* -- Arithmetic -------------------------------------------------------------- */

/// On two ints, `+ - *` give the sum, the difference and the product when it
/// fits an `i64`, and the overflow error of the operation otherwise.
pub proof fn law_int_add_sub_mul(fm: FloatModel, f: nat, op: Seq<char>, parts: Seq<Node>, loc: Loc, st: State, a: i64, b: i64, st1: State, st2: State)
    requires
        eval_node(fm, f, parts[1], st) == (Ok::<Val, ErrorView>(Val::Int(a)), st1),
        eval_node(fm, f, parts[2], st1) == (Ok::<Val, ErrorView>(Val::Int(b)), st2),
    ensures
        op == "+"@ ==> eval_list(fm, f, op, parts, loc, st).1 == st2 && if i64::MIN <= a + b <= i64::MAX {
            eval_list(fm, f, op, parts, loc, st).0 matches Ok(Val::Int(c)) && c == a + b
        } else {
            eval_list(fm, f, op, parts, loc, st).0 == Err::<Val, ErrorView>(err_msg("attempt to add with overflow"@))
        },
        op == "-"@ ==> eval_list(fm, f, op, parts, loc, st).1 == st2 && if i64::MIN <= a - b <= i64::MAX {
            eval_list(fm, f, op, parts, loc, st).0 matches Ok(Val::Int(c)) && c == a - b
        } else {
            eval_list(fm, f, op, parts, loc, st).0 == Err::<Val, ErrorView>(err_msg("attempt to subtract with overflow"@))
        },
        op == "*"@ ==> eval_list(fm, f, op, parts, loc, st).1 == st2 && if i64::MIN <= a * b <= i64::MAX {
            eval_list(fm, f, op, parts, loc, st).0 matches Ok(Val::Int(c)) && c == a * b
        } else {
            eval_list(fm, f, op, parts, loc, st).0 == Err::<Val, ErrorView>(err_msg("attempt to multiply with overflow"@))
        },
{
    lemma_keywords();
    lemma_operator_chars();
}

/// The quotient of two ints rounded toward zero: the quotient of their sizes,
/// negated when their signs differ.
pub open spec fn quotient_toward_zero(a: int, b: int) -> int {
    let q = (if a < 0 { -a } else { a }) / (if b < 0 { -b } else { b });
    if (a < 0) == (b < 0) { q } else { -q }
}

/// On two ints, `/` fails on a zero divisor with the division-by-zero error
/// at the division, and otherwise gives the quotient rounded toward zero,
/// or the overflow error when that does not fit an `i64`.
pub proof fn law_int_division(fm: FloatModel, f: nat, parts: Seq<Node>, loc: Loc, st: State, a: i64, b: i64, st1: State, st2: State)
    requires
        eval_node(fm, f, parts[1], st) == (Ok::<Val, ErrorView>(Val::Int(a)), st1),
        eval_node(fm, f, parts[2], st1) == (Ok::<Val, ErrorView>(Val::Int(b)), st2),
    ensures
        eval_list(fm, f, "/"@, parts, loc, st).1 == st2,
        b == 0 ==> eval_list(fm, f, "/"@, parts, loc, st).0 == Err::<Val, ErrorView>(err_at("division by zero"@, loc)),
        b != 0 && i64::MIN <= quotient_toward_zero(a as int, b as int) <= i64::MAX
            ==> (eval_list(fm, f, "/"@, parts, loc, st).0 matches Ok(Val::Int(q)) && q == quotient_toward_zero(a as int, b as int)),
        b != 0 && !(i64::MIN <= quotient_toward_zero(a as int, b as int) <= i64::MAX)
            ==> eval_list(fm, f, "/"@, parts, loc, st).0 == Err::<Val, ErrorView>(err_msg("attempt to divide with overflow"@)),
{
    lemma_keywords();
    lemma_operator_chars();
}

/// On two floats, each arithmetic operator asks the float model the
/// operation it names: `+` addition, `-` subtraction, `*` multiplication,
/// `/` division; a division by a divisor the model finds equal to zero
/// fails with the division-by-zero error.
pub proof fn law_float_arithmetic(fm: FloatModel, f: nat, op: Seq<char>, parts: Seq<Node>, loc: Loc, st: State, a: u64, b: u64, st1: State, st2: State)
    requires
        eval_node(fm, f, parts[1], st) == (Ok::<Val, ErrorView>(Val::Float(a)), st1),
        eval_node(fm, f, parts[2], st1) == (Ok::<Val, ErrorView>(Val::Float(b)), st2),
    ensures
        op == "+"@ ==> eval_list(fm, f, op, parts, loc, st) == (Ok::<Val, ErrorView>(Val::Float((fm.arith)(FloatArith::Add, a, b))), st2),
        op == "-"@ ==> eval_list(fm, f, op, parts, loc, st) == (Ok::<Val, ErrorView>(Val::Float((fm.arith)(FloatArith::Sub, a, b))), st2),
        op == "*"@ ==> eval_list(fm, f, op, parts, loc, st) == (Ok::<Val, ErrorView>(Val::Float((fm.arith)(FloatArith::Mul, a, b))), st2),
        op == "/"@ && !(fm.test)(FloatTest::Eq, b, 0u64)
            ==> eval_list(fm, f, op, parts, loc, st) == (Ok::<Val, ErrorView>(Val::Float((fm.arith)(FloatArith::Div, a, b))), st2),
        op == "/"@ && (fm.test)(FloatTest::Eq, b, 0u64)
            ==> eval_list(fm, f, op, parts, loc, st) == (Err::<Val, ErrorView>(err_at("division by zero"@, loc)), st2),
{
    lemma_keywords();
    lemma_operator_chars();
}

/* -- Special forms and literals -------------------------------------------- */

/// `print` gives void and adds the value of its operand, and nothing else,
/// to what has been printed.
pub proof fn law_print(fm: FloatModel, f: nat, parts: Seq<Node>, loc: Loc, st: State, v: Val, st1: State)
    requires
        eval_node(fm, f, parts[1], st) == (Ok::<Val, ErrorView>(v), st1),
    ensures
        eval_list(fm, f, "print"@, parts, loc, st).0 == Ok::<Val, ErrorView>(Val::Void),
        eval_list(fm, f, "print"@, parts, loc, st).1.out.len() == st1.out.len() + 1,
        eval_list(fm, f, "print"@, parts, loc, st).1.out.last() == v,
        eval_list(fm, f, "print"@, parts, loc, st).1.out.drop_last() == st1.out,
        eval_list(fm, f, "print"@, parts, loc, st).1.env == st1.env,
{
    lemma_keywords();
    lemma_operator_chars();
    assert(eval_list(fm, f, "print"@, parts, loc, st).1.out.drop_last() =~= st1.out);
}

/// `if` runs its second item when the condition is true and its third when
/// it is false, from the state the condition leaves.
pub proof fn law_if_runs_one_branch(fm: FloatModel, f: nat, parts: Seq<Node>, loc: Loc, st: State, c: bool, st1: State)
    requires
        eval_node(fm, f, parts[1], st) == (Ok::<Val, ErrorView>(Val::Bool(c)), st1),
    ensures
        c ==> eval_list(fm, f, "if"@, parts, loc, st) == eval_node(fm, f, parts[2], st1),
        !c ==> eval_list(fm, f, "if"@, parts, loc, st) == eval_node(fm, f, parts[3], st1),
{
    lemma_keywords();
    lemma_operator_chars();
}

/// A `while` whose condition is false gives void and does not run its body;
/// one whose condition is true runs its body, then the loop again.
pub proof fn law_while_rounds(fm: FloatModel, f: nat, parts: Seq<Node>, loc: Loc, st: State, c: bool, st1: State)
    requires
        f > 0,
        eval_node(fm, f, parts[1], st) == (Ok::<Val, ErrorView>(Val::Bool(c)), st1),
    ensures
        !c ==> eval_list(fm, f, "while"@, parts, loc, st) == (Ok::<Val, ErrorView>(Val::Void), st1),
        c && crate::semantics::eval_seq(fm, f, parts, 2, st1).0 is Ok ==> eval_list(fm, f, "while"@, parts, loc, st)
            == crate::semantics::eval_while(fm, (f - 1) as nat, parts, crate::semantics::eval_seq(fm, f, parts, 2, st1).1),
{
    lemma_keywords();
    lemma_operator_chars();
}

/// A `let` gives void, and afterwards its variable reads the value of its
/// third item, in the innermost scope.
pub proof fn law_let_binds(fm: FloatModel, f: nat, parts: Seq<Node>, loc: Loc, st: State, v: Val, st1: State)
    requires
        parts[1] is Id,
        st1.env.frames.len() > 0,
        eval_node(fm, f, parts[3], st) == (Ok::<Val, ErrorView>(v), st1),
    ensures
        eval_list(fm, f, "let"@, parts, loc, st).0 == Ok::<Val, ErrorView>(Val::Void),
        crate::env::frames_lookup(eval_list(fm, f, "let"@, parts, loc, st).1.env.frames, parts[1]->Id_0) == Some(v),
{
    lemma_keywords();
    lemma_operator_chars();
    crate::laws::law_lookup_after_declare(st1.env.frames, parts[1]->Id_0, v);
}

/// A literal evaluates to itself, given a step of budget.
pub proof fn law_literals(fm: FloatModel, fuel: nat, st: State, n: i64, x: u64, b: bool, s: Seq<char>, loc: Loc)
    requires
        fuel > 0,
    ensures
        eval_node(fm, fuel, Node::Int(n, loc), st) == (Ok::<Val, ErrorView>(Val::Int(n)), st),
        eval_node(fm, fuel, Node::Float(x, loc), st) == (Ok::<Val, ErrorView>(Val::Float(x)), st),
        eval_node(fm, fuel, Node::Bool(b, loc), st) == (Ok::<Val, ErrorView>(Val::Bool(b)), st),
        eval_node(fm, fuel, Node::Str(s, loc), st) == (Ok::<Val, ErrorView>(Val::Str(s)), st),
{
}

/* -- The checker accepts every well-typed operator form --------------------- */

/// A form with two operands of one type is accepted: by `< > <= >=` and by
/// `+ - * /` on ints and floats, with type bool and the operands' type; by
/// `== !=` on any type but void, with type bool; by `and or` on bools and by
/// `concat` on strs. The environment after it is the one its operands leave.
pub proof fn law_checker_accepts_binary_forms(op: Seq<char>, parts: Seq<Node>, loc: Loc, env: TypeEnvView, t: Type, env1: TypeEnvView, env2: TypeEnvView)
    requires
        parts.len() == 3,
        check_node(parts[1], env) == Ok::<(Type, TypeEnvView), ErrorView>((t, env1)),
        check_node(parts[2], env1) == Ok::<(Type, TypeEnvView), ErrorView>((t, env2)),
    ensures
        (op == "<"@ || op == ">"@ || op == "<="@ || op == ">="@) && (t == Type::Int || t == Type::Float)
            ==> check_list(op, parts, loc, env) == Ok::<(Type, TypeEnvView), ErrorView>((Type::Bool, env2)),
        (op == "+"@ || op == "-"@ || op == "*"@ || op == "/"@) && (t == Type::Int || t == Type::Float)
            ==> check_list(op, parts, loc, env) == Ok::<(Type, TypeEnvView), ErrorView>((t, env2)),
        (op == "=="@ || op == "!="@) && t != Type::Void
            ==> check_list(op, parts, loc, env) == Ok::<(Type, TypeEnvView), ErrorView>((Type::Bool, env2)),
        (op == "and"@ || op == "or"@) && t == Type::Bool
            ==> check_list(op, parts, loc, env) == Ok::<(Type, TypeEnvView), ErrorView>((Type::Bool, env2)),
        op == "concat"@ && t == Type::Str
            ==> check_list(op, parts, loc, env) == Ok::<(Type, TypeEnvView), ErrorView>((Type::Str, env2)),
{
    lemma_keywords();
    lemma_operator_chars();
}

/// A form with one operand is accepted: `not` on a bool with type bool,
/// `length` on a str with type int, `print` on any value but a void one
/// with type void.
pub proof fn law_checker_accepts_unary_forms(op: Seq<char>, parts: Seq<Node>, loc: Loc, env: TypeEnvView, t: Type, env1: TypeEnvView)
    requires
        parts.len() == 2,
        check_node(parts[1], env) == Ok::<(Type, TypeEnvView), ErrorView>((t, env1)),
    ensures
        op == "not"@ && t == Type::Bool ==> check_list(op, parts, loc, env) == Ok::<(Type, TypeEnvView), ErrorView>((Type::Bool, env1)),
        op == "length"@ && t == Type::Str ==> check_list(op, parts, loc, env) == Ok::<(Type, TypeEnvView), ErrorView>((Type::Int, env1)),
        op == "print"@ && t != Type::Void ==> check_list(op, parts, loc, env) == Ok::<(Type, TypeEnvView), ErrorView>((Type::Void, env1)),
{
    lemma_keywords();
    lemma_operator_chars();
}

/// An `if` with a bool condition and two branches of one type is accepted
/// with that type; what its branches declare is dropped after it.
pub proof fn law_checker_accepts_if(parts: Seq<Node>, loc: Loc, env: TypeEnvView, env1: TypeEnvView, t: Type, e2: TypeEnvView, e3: TypeEnvView)
    requires
        parts.len() == 4,
        check_node(parts[1], env) == Ok::<(Type, TypeEnvView), ErrorView>((Type::Bool, env1)),
        check_node(parts[2], crate::typing::push_scope(env1)) == Ok::<(Type, TypeEnvView), ErrorView>((t, e2)),
        check_node(parts[3], crate::typing::push_scope(env1)) == Ok::<(Type, TypeEnvView), ErrorView>((t, e3)),
    ensures
        check_list("if"@, parts, loc, env) == Ok::<(Type, TypeEnvView), ErrorView>((t, env1)),
{
    lemma_keywords();
    lemma_operator_chars();
}

/// A `let` whose value has the declared type is accepted when the variable
/// is not visible or has that type; the variable then has that type.
pub proof fn law_checker_accepts_let(parts: Seq<Node>, loc: Loc, env: TypeEnvView, t: Type, env1: TypeEnvView)
    requires
        parts.len() == 4,
        parts[1] is Id,
        crate::typing::require_type(parts[2], "let: type"@) == Ok::<Type, ErrorView>(t),
        check_node(parts[3], env) == Ok::<(Type, TypeEnvView), ErrorView>((t, env1)),
        env1.frames.len() > 0,
        crate::env::frames_lookup(env1.frames, parts[1]->Id_0) is None
            || crate::env::frames_lookup(env1.frames, parts[1]->Id_0) == Some(t),
    ensures
        check_list("let"@, parts, loc, env) is Ok,
        check_list("let"@, parts, loc, env)->Ok_0.0 == Type::Void,
        crate::env::frames_lookup(check_list("let"@, parts, loc, env)->Ok_0.1.frames, parts[1]->Id_0) == Some(t),
{
    lemma_keywords();
    lemma_operator_chars();
    crate::laws::law_lookup_after_declare(env1.frames, parts[1]->Id_0, t);
}

} // verus!

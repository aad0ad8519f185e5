//! The scoped environments of the type checker and of the evaluator.
use vstd::prelude::*;
use vstd::string::StringExecFns;

use crate::error::{BestError, ErrorView, Loc, err_at};
use crate::table::Table;
use crate::types::Type;
use crate::ast::Expr;
use crate::eval::Value;
use crate::semantics::{EvalEnvView, FunView, Val, MAX_DEPTH};
use crate::typecheck::names_of;

verus! {

/// The value of `k` in the innermost of the scopes `frames` (the last one
/// first) that holds it.
pub open spec fn frames_lookup<V>(frames: Seq<Map<Seq<char>, V>>, k: Seq<char>) -> Option<V>
    decreases frames.len(),
{
    if frames.len() == 0 {
        None
    } else if frames.last().contains_key(k) {
        Some(frames.last()[k])
    } else {
        frames_lookup(frames.drop_last(), k)
    }
}

/// The index of the innermost scope of `frames` that holds `k`.
pub open spec fn frames_find<V>(frames: Seq<Map<Seq<char>, V>>, k: Seq<char>) -> Option<int>
    decreases frames.len(),
{
    if frames.len() == 0 {
        None
    } else if frames.last().contains_key(k) {
        Some(frames.len() - 1)
    } else {
        frames_find(frames.drop_last(), k)
    }
}

/// The scope `frames_find` gives is one of the scopes, and holds the name;
/// `frames_lookup` reads the name there.
pub proof fn lemma_frames_find<V>(frames: Seq<Map<Seq<char>, V>>, k: Seq<char>)
    ensures
        match frames_find(frames, k) {
            Some(i) => 0 <= i < frames.len() && frames[i].contains_key(k)
                && frames_lookup(frames, k) == Some(frames[i][k]),
            None => frames_lookup(frames, k) is None,
        },
    decreases frames.len(),
{
    if frames.len() > 0 && !frames.last().contains_key(k) {
        lemma_frames_find(frames.drop_last(), k);
    }
}

/// No scope inside the one `frames_find` gives holds the name.
pub proof fn lemma_frames_find_innermost<V>(frames: Seq<Map<Seq<char>, V>>, k: Seq<char>)
    ensures
        frames_find(frames, k) matches Some(i)
            ==> forall|j: int| i < j < frames.len() ==> !(#[trigger] frames[j]).contains_key(k),
    decreases frames.len(),
{
    if frames.len() > 0 && !frames.last().contains_key(k) {
        let d = frames.drop_last();
        lemma_frames_find_innermost(d, k);
        lemma_frames_find(frames, k);
        if let Some(i) = frames_find(frames, k) {
            assert forall|j: int| i < j < frames.len() implies !(#[trigger] frames[j]).contains_key(k) by {
                if j < d.len() {
                    assert(d[j] == frames[j]);
                }
            }
        }
    }
}

/// The error for a name that no scope holds.
pub open spec fn undefined_variable(name: Seq<char>, loc: Loc) -> ErrorView {
    err_at("undefined variable '"@ + name + "'"@, loc)
}

/// The error for a call of a function that was not declared.
pub open spec fn undefined_function(name: Seq<char>, loc: Loc) -> ErrorView {
    err_at("undefined function '"@ + name + "'"@, loc)
}

pub fn undefined_variable_error(name: &str, loc: &Loc) -> (e: BestError)
    ensures
        e@ == undefined_variable(name@, *loc),
{
    let mut m = String::from_str("undefined variable '");
    m.append(name);
    m.append("'");
    BestError { message: m, loc: Some(*loc) }
}

pub fn undefined_function_error(name: &str, loc: &Loc) -> (e: BestError)
    ensures
        e@ == undefined_function(name@, *loc),
{
    let mut m = String::from_str("undefined function '");
    m.append(name);
    m.append("'");
    BestError { message: m, loc: Some(*loc) }
}

/// A copy of a list of types.
pub fn copy_types(v: &Vec<Type>) -> (r: Vec<Type>)
    ensures
        r@ == v@,
{
    let mut r: Vec<Type> = Vec::new();
    let mut i: usize = 0;
    while i < v.len()
        invariant
            i <= v@.len(),
            r@ == v@.subrange(0, i as int),
        decreases v@.len() - i,
    {
        r.push(v[i]);
        i = i + 1;
        assert(r@ =~= v@.subrange(0, i as int));
    }
    assert(r@ =~= v@);
    r
}

/* -- Type environment ------------------------------------------------------- */

/// The scopes of variable types, innermost last, and the declared function
/// signatures (parameter types and return type) seen by the type checker.
pub struct TypeEnv {
    var_frames: Vec<Table<Type>>,
    pub funs: Table<(Vec<Type>, Type)>,
}

/// A type environment as a mathematical value.
pub struct TypeEnvView {
    pub frames: Seq<Map<Seq<char>, Type>>,
    pub funs: Map<Seq<char>, (Seq<Type>, Type)>,
}

/// The signatures of a function table, with parameter lists as sequences.
pub open spec fn signatures_of(t: Map<Seq<char>, (Vec<Type>, Type)>) -> Map<Seq<char>, (Seq<Type>, Type)> {
    t.map_values(|p: (Vec<Type>, Type)| (p.0@, p.1))
}

/// The scopes of a stack of type tables.
pub open spec fn scopes_of(v: Seq<Table<Type>>) -> Seq<Map<Seq<char>, Type>> {
    v.map_values(|t: Table<Type>| t@)
}

impl View for TypeEnv {
    type V = TypeEnvView;

    closed spec fn view(&self) -> TypeEnvView {
        TypeEnvView {
            frames: scopes_of(self.var_frames@),
            funs: signatures_of(self.funs@),
        }
    }
}

impl TypeEnv {
    /// An environment with one empty scope and the given signatures.
    pub fn new(funs: Table<(Vec<Type>, Type)>) -> (env: Self)
        ensures
            env@.frames == seq![Map::<Seq<char>, Type>::empty()],
            env@.funs == signatures_of(funs@),
    {
        let mut var_frames: Vec<Table<Type>> = Vec::new();
        var_frames.push(Table::new());
        let env = TypeEnv { var_frames, funs };
        assert(env@.frames =~= seq![Map::<Seq<char>, Type>::empty()]);
        env
    }

    /// Sets all scopes aside, leaving none, and hands them back.
    pub fn take_frames(&mut self) -> (saved: Vec<Table<Type>>)
        ensures
            final(self)@.frames == Seq::<Map<Seq<char>, Type>>::empty(),
            final(self)@.funs == old(self)@.funs,
            scopes_of(saved@) == old(self)@.frames,
    {
        let mut saved: Vec<Table<Type>> = Vec::new();
        std::mem::swap(&mut saved, &mut self.var_frames);
        assert(self@.frames =~= Seq::<Map<Seq<char>, Type>>::empty());
        saved
    }

    /// Puts back scopes set aside, in place of the current ones.
    pub fn restore_frames(&mut self, saved: Vec<Table<Type>>)
        ensures
            final(self)@.frames == scopes_of(saved@),
            final(self)@.funs == old(self)@.funs,
    {
        self.var_frames = saved;
    }

    /// Opens a new, empty innermost scope.
    pub fn push_frame(&mut self)
        ensures
            final(self)@.frames == old(self)@.frames.push(Map::empty()),
            final(self)@.funs == old(self)@.funs,
    {
        self.var_frames.push(Table::new());
        assert(self@.frames =~= old(self)@.frames.push(Map::empty()));
    }

    /// Closes the innermost scope, if there is one.
    pub fn pop_frame(&mut self)
        ensures
            final(self)@.frames == (if old(self)@.frames.len() > 0 {
                old(self)@.frames.drop_last()
            } else {
                old(self)@.frames
            }),
            final(self)@.funs == old(self)@.funs,
    {
        let _ = self.var_frames.pop();
        assert(self@.frames =~= (if old(self)@.frames.len() > 0 {
            old(self)@.frames.drop_last()
        } else {
            old(self)@.frames
        }));
    }

    /// Gives `name` the type `ty` in the innermost scope.
    pub fn declare_var(&mut self, name: &str, ty: Type)
        requires
            old(self)@.frames.len() > 0,
        ensures
            final(self)@.frames == old(self)@.frames.update(
                old(self)@.frames.len() - 1,
                old(self)@.frames.last().insert(name@, ty),
            ),
            final(self)@.funs == old(self)@.funs,
    {
        let n = self.var_frames.len();
        self.var_frames[n - 1].insert(name, ty);
        assert(self@.frames =~= old(self)@.frames.update(
            old(self)@.frames.len() - 1,
            old(self)@.frames.last().insert(name@, ty),
        ));
    }

    /// The type of `name` in the innermost scope that holds it; a name that
    /// no scope holds is an error at `loc`.
    pub fn lookup_var(&self, name: &str, loc: &Loc) -> (r: Result<Type, BestError>)
        ensures
            match frames_lookup(self@.frames, name@) {
                Some(t) => r == Ok::<Type, BestError>(t),
                None => r matches Err(e) && e@ == undefined_variable(name@, *loc),
            },
    {
        let mut i = self.var_frames.len();
        assert(self@.frames.subrange(0, i as int) =~= self@.frames);
        while i > 0
            invariant
                i <= self.var_frames@.len(),
                frames_lookup(self@.frames, name@) == frames_lookup(self@.frames.subrange(0, i as int), name@),
            decreases i,
        {
            let ghost fs = self@.frames.subrange(0, i as int);
            assert(fs.drop_last() =~= self@.frames.subrange(0, i - 1));
            match self.var_frames[i - 1].get(name) {
                Some(t) => {
                    return Ok(*t);
                },
                None => {},
            }
            i = i - 1;
        }
        Err(undefined_variable_error(name, loc))
    }

    /// The signature of function `name`; an undeclared name is an error at `loc`.
    pub fn lookup_fun(&self, name: &str, loc: &Loc) -> (r: Result<(Vec<Type>, Type), BestError>)
        ensures
            match r {
                Ok(sig) => self@.funs.contains_key(name@) && self@.funs[name@] == (sig.0@, sig.1),
                Err(e) => !self@.funs.contains_key(name@) && e@ == undefined_function(name@, *loc),
            },
    {
        match self.funs.get(name) {
            Some(sig) => Ok((copy_types(&sig.0), sig.1)),
            None => Err(undefined_function_error(name, loc)),
        }
    }
}

/* -- Eval environment ------------------------------------------------------- */

/// A user function: parameter names and body.
pub struct Function {
    pub params: Vec<String>,
    pub body: Expr,
}

impl View for Function {
    type V = FunView;

    open spec fn view(&self) -> FunView {
        FunView { params: names_of(self.params@), body: self.body@ }
    }
}

impl Function {
    /// A copy of this function.
    pub fn duplicate(&self) -> (r: Function)
        ensures
            r@ == self@,
    {
        let params = self.params.clone();
        proof {
            assert(names_of(params@) =~= names_of(self.params@));
        }
        Function { params, body: self.body.duplicate() }
    }
}

/// The values of a scope as mathematical values.
pub open spec fn scope_of(t: Map<Seq<char>, Value>) -> Map<Seq<char>, Val> {
    t.map_values(|v: Value| v@)
}

/// The functions of a table as mathematical values.
pub open spec fn functions_of(t: Map<Seq<char>, Function>) -> Map<Seq<char>, FunView> {
    t.map_values(|f: Function| f@)
}

/// The evaluator's environment: the variable scopes (innermost last), the
/// functions, and the number of calls in progress.
pub struct EvalEnv {
    pub(crate) var_frames: Vec<Table<Value>>,
    pub funs: Table<Function>,
    pub call_depth: usize,
}

impl View for EvalEnv {
    type V = EvalEnvView;

    closed spec fn view(&self) -> EvalEnvView {
        EvalEnvView {
            frames: self.var_frames@.map_values(|t: Table<Value>| scope_of(t@)),
            funs: functions_of(self.funs@),
            depth: self.call_depth as nat,
        }
    }
}

/// The view of an evaluator environment, field by field.
pub(crate) proof fn lemma_eval_env_fields(env: &EvalEnv)
    ensures
        env@.frames == env.var_frames@.map_values(|t: Table<Value>| scope_of(t@)),
        env@.depth == env.call_depth as nat,
        env@.funs == functions_of(env.funs@),
{
}

impl EvalEnv {
    /// Starts a call: one more call in progress, and `frame` as the new
    /// innermost scope.
    pub(crate) fn begin_call(&mut self, frame: Table<Value>)
        requires
            old(self)@.depth < MAX_DEPTH,
        ensures
            final(self)@.frames == old(self)@.frames.push(scope_of(frame@)),
            final(self)@.funs == old(self)@.funs,
            final(self)@.depth == old(self)@.depth + 1,
    {
        self.call_depth = self.call_depth + 1;
        self.push_frame(frame);
    }

    /// Ends a call: its scope is closed and one call fewer is in progress.
    pub(crate) fn end_call(&mut self)
        requires
            old(self)@.depth > 0,
        ensures
            final(self)@.frames == (if old(self)@.frames.len() > 0 {
                old(self)@.frames.drop_last()
            } else {
                old(self)@.frames
            }),
            final(self)@.funs == old(self)@.funs,
            final(self)@.depth == old(self)@.depth - 1,
    {
        self.pop_frame();
        self.call_depth = self.call_depth - 1;
    }

    /// An environment with one empty scope, no functions and no call in progress.
    pub fn new() -> (env: Self)
        ensures
            env@.frames == seq![Map::<Seq<char>, Val>::empty()],
            env@.funs == Map::<Seq<char>, FunView>::empty(),
            env@.depth == 0,
    {
        let mut var_frames: Vec<Table<Value>> = Vec::new();
        var_frames.push(Table::new());
        let env = EvalEnv { var_frames, funs: Table::new(), call_depth: 0 };
        assert(scope_of(Map::<Seq<char>, Value>::empty()) =~= Map::<Seq<char>, Val>::empty());
        assert(env@.frames =~= seq![Map::<Seq<char>, Val>::empty()]);
        assert(env@.funs =~= Map::<Seq<char>, FunView>::empty());
        env
    }

    /// Opens a new innermost scope holding `bindings`.
    pub fn push_frame(&mut self, bindings: Table<Value>)
        ensures
            final(self)@.frames == old(self)@.frames.push(scope_of(bindings@)),
            final(self)@.funs == old(self)@.funs,
            final(self)@.depth == old(self)@.depth,
    {
        self.var_frames.push(bindings);
        assert(self@.frames =~= old(self)@.frames.push(scope_of(bindings@)));
    }

    /// Closes the innermost scope, if there is one.
    pub fn pop_frame(&mut self)
        ensures
            final(self)@.frames == (if old(self)@.frames.len() > 0 {
                old(self)@.frames.drop_last()
            } else {
                old(self)@.frames
            }),
            final(self)@.funs == old(self)@.funs,
            final(self)@.depth == old(self)@.depth,
    {
        let _ = self.var_frames.pop();
        assert(self@.frames =~= (if old(self)@.frames.len() > 0 {
            old(self)@.frames.drop_last()
        } else {
            old(self)@.frames
        }));
    }

    /// Gives `name` the value `val` in the innermost scope.
    pub fn declare_var(&mut self, name: &str, val: Value)
        requires
            old(self)@.frames.len() > 0,
        ensures
            final(self)@.frames == old(self)@.frames.update(
                old(self)@.frames.len() - 1,
                old(self)@.frames.last().insert(name@, val@),
            ),
            final(self)@.funs == old(self)@.funs,
            final(self)@.depth == old(self)@.depth,
    {
        let n = self.var_frames.len();
        let ghost v = val@;
        let ghost before = self.var_frames@[n - 1]@;
        self.var_frames[n - 1].insert(name, val);
        assert(scope_of(before.insert(name@, val)) =~= scope_of(before).insert(name@, v));
        assert(self@.frames =~= old(self)@.frames.update(
            old(self)@.frames.len() - 1,
            old(self)@.frames.last().insert(name@, v),
        ));
    }

    /// Gives `name` the value `val` in the innermost scope that holds it; a
    /// name that no scope holds is an error at `loc`.
    pub fn assign_var(&mut self, name: &str, val: Value, loc: &Loc) -> (r: Result<(), BestError>)
        ensures
            final(self)@.funs == old(self)@.funs,
            final(self)@.depth == old(self)@.depth,
            match frames_find(old(self)@.frames, name@) {
                Some(i) => r is Ok && final(self)@.frames == old(self)@.frames.update(
                    i,
                    old(self)@.frames[i].insert(name@, val@),
                ),
                None => final(self)@.frames == old(self)@.frames && (r matches Err(e) && e@ == undefined_variable(name@, *loc)),
            },
    {
        let mut i = self.var_frames.len();
        assert(self@.frames.subrange(0, i as int) =~= self@.frames);
        while i > 0
            invariant
                i <= self.var_frames@.len(),
                self == old(self),
                frames_find(self@.frames, name@) == frames_find(self@.frames.subrange(0, i as int), name@),
            decreases i,
        {
            let ghost fs = self@.frames.subrange(0, i as int);
            assert(fs.drop_last() =~= self@.frames.subrange(0, i - 1));
            if self.var_frames[i - 1].contains_key(name) {
                let ghost v = val@;
                let ghost before = self.var_frames@[i - 1]@;
                self.var_frames[i - 1].insert(name, val);
                assert(scope_of(before.insert(name@, val)) =~= scope_of(before).insert(name@, v));
                assert(self@.frames =~= old(self)@.frames.update(i - 1, old(self)@.frames[i - 1].insert(name@, v)));
                return Ok(());
            }
            i = i - 1;
        }
        Err(undefined_variable_error(name, loc))
    }

    /// The value of `name` in the innermost scope that holds it; a name that
    /// no scope holds is an error at `loc`.
    pub fn lookup_var(&self, name: &str, loc: &Loc) -> (r: Result<Value, BestError>)
        ensures
            match frames_lookup(self@.frames, name@) {
                Some(v) => r matches Ok(x) && x@ == v,
                None => r matches Err(e) && e@ == undefined_variable(name@, *loc),
            },
    {
        let mut i = self.var_frames.len();
        assert(self@.frames.subrange(0, i as int) =~= self@.frames);
        while i > 0
            invariant
                i <= self.var_frames@.len(),
                frames_lookup(self@.frames, name@) == frames_lookup(self@.frames.subrange(0, i as int), name@),
            decreases i,
        {
            let ghost fs = self@.frames.subrange(0, i as int);
            assert(fs.drop_last() =~= self@.frames.subrange(0, i - 1));
            match self.var_frames[i - 1].get(name) {
                Some(v) => {
                    return Ok(v.duplicate());
                },
                None => {},
            }
            i = i - 1;
        }
        Err(undefined_variable_error(name, loc))
    }
}

} // verus!

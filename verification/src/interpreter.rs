//! The interpreter: type-check a whole program, then run it.
use vstd::prelude::*;

use crate::ast::{Expr, nodes_of};
use crate::error::{BestError, ErrorView};
use crate::eval::{Value, eval_program, float_ops_ok, model_of, vals_of};
use crate::semantics::{FloatArith, FloatTest, run_program};
use crate::typecheck::typecheck;
use crate::typing::typecheck_program;
use crate::safety::law_well_typed_programs_do_not_go_wrong;
use crate::soundness::is_runtime_fault;

verus! {

/// Runs a program as the interpreter does: the whole program is type-checked
/// first, and only a well-typed program is evaluated. A type error is
/// returned before anything is printed; otherwise the result is that of the
/// run, and the printed values are appended to `out`. A program that
/// type-checks fails only on a runtime fault: the evaluation budget used
/// up, a division by zero, an integer overflow or too many calls in
/// progress.
pub fn check_and_run<A, C>(program: &[Expr], fuel: u64, out: &mut Vec<Value>, arith: &A, test: &C) -> (r: Result<(), BestError>)
    where A: Fn(FloatArith, u64, u64) -> u64, C: Fn(FloatTest, u64, u64) -> bool,
    requires
        float_ops_ok(*arith, *test),
    ensures
        match typecheck_program(nodes_of(program@)) {
            Err(e) => r matches Err(err) && err@ == e && final(out)@ == old(out)@,
            Ok(()) => (match r { Ok(()) => Ok::<(), ErrorView>(()), Err(e) => Err(e@) }, vals_of(final(out)@))
                == run_program(model_of(*arith, *test), fuel as nat, nodes_of(program@), vals_of(old(out)@)),
        },
        typecheck_program(nodes_of(program@)) is Ok ==> (r matches Err(e) ==> is_runtime_fault(e@)),
{
    typecheck(program)?;
    proof {
        law_well_typed_programs_do_not_go_wrong(model_of(*arith, *test), fuel as nat, nodes_of(program@), vals_of(old(out)@));
    }
    eval_program(program, fuel, out, arith, test)
}

} // verus!

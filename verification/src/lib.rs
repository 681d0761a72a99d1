//! An interpreter for a small policy-script language: expressions over
//! keys, time-locks and hash constraints evaluate to typed domain values
//! -- policies, compiled scripts, descriptors -- that compose further via
//! function calls, variables, arrays and derivation.
//!
//! The expression tree comes from an external parser; the heavy
//! cryptographic work (policy compilation, script and key handling) is
//! done by an external domain library behind the trusted boundary in
//! `bridge`.

use vstd::prelude::*;

pub mod ast;
pub mod bridge;
pub mod domain;
pub mod error;
pub mod function;
pub mod laws;
pub mod runtime;
pub mod scope;
pub mod stdlib;
pub mod textfmt;

pub use ast::{Expr, Ident, Stmt};
pub use domain::{Descriptor, Miniscript, Network, Policy, PubKey};
pub use error::Error;
pub use function::{Builtin, Function};
pub use runtime::{Array, Evaluate, Execute, Value, MAX_CALL_DEPTH};
pub use scope::Scope;

verus! {

/// Evaluates an expression against a freshly bootstrapped root scope.
/// Atoms evaluate to themselves; an n-ary boolean composition that
/// evaluates successfully is, with two operands, the pairwise `or`/`and`
/// builtin's result on the operand values, and with any other count the
/// `thresh` builtin's result with count 1 for `or` and the operand count
/// for `and`.
pub fn run(expr: Expr) -> (r: Result<Value, Error>)
    ensures
        expr matches Expr::Number(n) ==> (r matches Ok(v) && v@ == runtime::ValueM::Number(
            n as int,
        )),
        expr matches Expr::DateTime(s) ==> (r matches Ok(v) && v@ == runtime::ValueM::DateTime(
            s@,
        )),
        expr matches Expr::Array(es) ==> (runtime::all_number_atoms(es@) ==> (r matches Ok(v)
            && v@ == runtime::ValueM::Array(runtime::number_atom_values(es@)))),
        expr matches Expr::ArrayAccess(a, ix) ==> (((*a) is Array && runtime::all_number_atoms(
            (*a)->Array_0@,
        ) && (*ix) is Number) ==> (match runtime::array_access_spec(
            runtime::ValueM::Array(runtime::number_atom_values((*a)->Array_0@)),
            runtime::ValueM::Number((*ix)->Number_0 as int),
        ) {
            Ok(v) => r matches Ok(rv) && rv@ == v,
            Err(err) => r matches Err(re) && re@ == err,
        })),
        r matches Ok(v) ==> (expr is Or && expr->Or_0@.len() == 2 ==> exists|
            vals: Seq<runtime::ValueM>,
        |
            #![auto]
            vals.len() == 2 && stdlib::miniscript::builtin_or(vals) == Ok::<
                runtime::ValueM,
                error::ErrorM,
            >(v@)),
        r matches Ok(v) ==> (expr is And && expr->And_0@.len() == 2 ==> exists|
            vals: Seq<runtime::ValueM>,
        |
            #![auto]
            vals.len() == 2 && stdlib::miniscript::builtin_and(vals) == Ok::<
                runtime::ValueM,
                error::ErrorM,
            >(v@)),
        r matches Ok(v) ==> (expr is Or && expr->Or_0@.len() != 2 ==> exists|
            vals: Seq<runtime::ValueM>,
        |
            #![auto]
            vals.len() == expr->Or_0@.len() && stdlib::miniscript::builtin_thresh(
                seq![runtime::ValueM::Number(1)] + vals,
            ) == Ok::<runtime::ValueM, error::ErrorM>(v@)),
        r matches Ok(v) ==> (expr is And && expr->And_0@.len() != 2 ==> exists|
            vals: Seq<runtime::ValueM>,
        |
            #![auto]
            vals.len() == expr->And_0@.len() && stdlib::miniscript::builtin_thresh(
                seq![runtime::ValueM::Number(expr->And_0@.len() as int)] + vals,
            ) == Ok::<runtime::ValueM, error::ErrorM>(v@)),
{
    let mut scope = Scope::root();
    runtime::eval_expr(&mut scope, 0, &expr, MAX_CALL_DEPTH)
}

/// Evaluates an expression and narrows the result to a policy: the
/// top-level entry point for compilation. The result, when there is one,
/// is the policy conversion of some runtime value; an evaluation that
/// yields a value no policy conversion accepts is that conversion's error.
pub fn compile(expr: Expr) -> (r: Result<Policy, Error>)
    ensures
        r matches Ok(p) ==> exists|v: runtime::ValueM|
            #![auto]
            runtime::as_policy(v) == Ok::<domain::PolicyM, error::ErrorM>(p@),
        expr matches Expr::Number(n) ==> (r matches Err(e) && e@ == error::ErrorM::NotPolicyLike(
            runtime::ValueM::Number(n as int),
        )),
{
    let v = match run(expr) {
        Ok(v) => v,
        Err(e) => {
            return Err(e);
        },
    };
    let ghost vm = v@;
    match v.into_policy() {
        Ok(p) => {
            proof {
                assert(runtime::as_policy(vm) == Ok::<domain::PolicyM, error::ErrorM>(p@));
            }
            Ok(p)
        },
        Err(e) => Err(e),
    }
}

} // verus!

//! The callable abstraction: native builtins and user-defined closures,
//! unified behind one `Function` value kind.

use vstd::prelude::*;
use std::rc::Rc;
use crate::ast::{Expr, Ident};

verus! {

/// Identifies one native builtin function.
#[derive(Debug, Clone, Copy, PartialEq, Eq, Structural)]
pub enum Builtin {
    Or,
    And,
    Thresh,
    Older,
    After,
    Pk,
    Sha256,
    Hash256,
    Ripemd160,
    Hash160,
    Miniscript,
    Wpkh,
    Wsh,
    Sh,
    ScriptPubkey,
    ExplicitScript,
    All,
    Any,
    Prob,
    Len,
    Rawscript,
    Repeat,
    Iif,
    Le64,
}

/// A user-defined closure: formal parameters, a body expression, and the
/// scope captured by reference at definition time. The parameter list and
/// the body are shared read-only with the defining AST node and with every
/// other copy of this closure.
#[derive(Debug, PartialEq)]
pub struct Closure {
    pub params: Rc<Vec<Ident>>,
    pub body: Rc<Expr>,
    pub scope: usize,
}

/// A callable value: a native builtin or a user-defined closure.
#[derive(Debug, PartialEq)]
pub enum Function {
    Builtin(Builtin),
    Closure(Closure),
}

/// Relies on std's `Rc::clone`: returns a second handle to the same shared
/// parameter list.
#[verifier::external_body]
fn rc_clone_params(v: &Rc<Vec<Ident>>) -> (r: Rc<Vec<Ident>>)
    ensures
        r == *v,
{
    Rc::clone(v)
}

/// Relies on std's `Rc::clone`: returns a second handle to the same shared
/// body expression.
#[verifier::external_body]
fn rc_clone_body(v: &Rc<Expr>) -> (r: Rc<Expr>)
    ensures
        r == *v,
{
    Rc::clone(v)
}

/// Builds a closure value from a definition's shared parameter list and
/// body, capturing the given scope frame.
pub fn closure_of(params: &Rc<Vec<Ident>>, body: &Rc<Expr>, sc: usize) -> (r: Function)
    ensures
        r matches Function::Closure(c) && c.params == *params && c.body == *body && c.scope == sc,
{
    Function::Closure(
        Closure { params: rc_clone_params(params), body: rc_clone_body(body), scope: sc },
    )
}

impl Function {
    /// A copy of this callable. Closures share their parameter list and
    /// body; the copy is equal to the original.
    pub fn duplicate(&self) -> (r: Function)
        ensures
            r == *self,
    {
        match self {
            Function::Builtin(b) => Function::Builtin(*b),
            Function::Closure(c) => Function::Closure(
                Closure {
                    params: rc_clone_params(&c.params),
                    body: rc_clone_body(&c.body),
                    scope: c.scope,
                },
            ),
        }
    }
}

} // verus!

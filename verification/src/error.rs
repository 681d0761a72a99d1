//! The error taxonomy. Errors are terminal for the evaluation that raised
//! them and are propagated, never silently recovered; an error raised
//! inside a called function is wrapped with the calling identifier to
//! preserve a call trail.

use vstd::prelude::*;
use crate::ast::Ident;
use crate::runtime::{value_view, Value, ValueM};

verus! {

/// An evaluation error. The type-mismatch variants name the offending
/// value for diagnostics.
#[derive(Debug, PartialEq)]
pub enum Error {
    /// A variable reference that no scope in the chain binds.
    VarNotFound(Ident),
    /// A call of a name that no scope in the chain binds.
    FnNotFound(Ident),
    /// The value cannot stand where a policy is required.
    NotPolicyLike(Box<Value>),
    /// The value is not a number.
    NotNumber(Box<Value>),
    /// The value is not a public key.
    NotPubKey(Box<Value>),
    /// The value cannot stand where a descriptor is required.
    NotDescriptorLike(Box<Value>),
    /// The value cannot stand where a compiled script is required.
    NotMiniscriptLike(Box<Value>),
    /// The value is not an array.
    NotArray(Box<Value>),
    /// The value is not a network tag.
    NotNetwork(Box<Value>),
    /// The value is not raw hash bytes, or its length does not fit the
    /// requested hash algorithm.
    NotHash(Box<Value>),
    /// Wrong arity or an invalid combination of argument kinds for a
    /// builtin.
    InvalidArguments,
    /// `sh` wraps only an existing `wsh` or `wpkh` descriptor.
    InvalidShUse,
    /// A single, non-extendable key cannot be derived from.
    InvalidSingleDerivation,
    /// A descriptor-level derivation permits one non-wildcard step only.
    InvalidDescriptorDerivation,
    /// Array index out of range.
    ArrayIndexOutOfRange,
    /// A block with neither a trailing expression nor a `main` function.
    NoReturnValue,
    /// A second binding of the same name within one scope.
    DuplicateBinding(Ident),
    /// A public key literal that does not parse as a key.
    InvalidPubKey(String),
    /// A hash literal that is not well-formed hex.
    InvalidHex(String),
    /// The external policy compiler rejected the policy.
    CompilerError(String),
    /// The external descriptor operation failed.
    DescriptorError(String),
    /// The nesting ceiling of the evaluator was reached.
    RecursionLimit,
    /// An error raised inside a call, wrapped with the called name.
    CallError(Ident, Box<Error>),
}

/// Mathematical model of an error.
pub enum ErrorM {
    VarNotFound(Seq<char>),
    FnNotFound(Seq<char>),
    NotPolicyLike(ValueM),
    NotNumber(ValueM),
    NotPubKey(ValueM),
    NotDescriptorLike(ValueM),
    NotMiniscriptLike(ValueM),
    NotArray(ValueM),
    NotNetwork(ValueM),
    NotHash(ValueM),
    InvalidArguments,
    InvalidShUse,
    InvalidSingleDerivation,
    InvalidDescriptorDerivation,
    ArrayIndexOutOfRange,
    NoReturnValue,
    DuplicateBinding(Seq<char>),
    InvalidPubKey(Seq<char>),
    InvalidHex(Seq<char>),
    CompilerError(Seq<char>),
    DescriptorError(Seq<char>),
    RecursionLimit,
    CallError(Seq<char>, Box<ErrorM>),
}

/// Model of an error.
pub open spec fn error_view(e: Error) -> ErrorM
    decreases e,
{
    match e {
        Error::VarNotFound(id) => ErrorM::VarNotFound(id.0@),
        Error::FnNotFound(id) => ErrorM::FnNotFound(id.0@),
        Error::NotPolicyLike(v) => ErrorM::NotPolicyLike(value_view(*v)),
        Error::NotNumber(v) => ErrorM::NotNumber(value_view(*v)),
        Error::NotPubKey(v) => ErrorM::NotPubKey(value_view(*v)),
        Error::NotDescriptorLike(v) => ErrorM::NotDescriptorLike(value_view(*v)),
        Error::NotMiniscriptLike(v) => ErrorM::NotMiniscriptLike(value_view(*v)),
        Error::NotArray(v) => ErrorM::NotArray(value_view(*v)),
        Error::NotNetwork(v) => ErrorM::NotNetwork(value_view(*v)),
        Error::NotHash(v) => ErrorM::NotHash(value_view(*v)),
        Error::InvalidArguments => ErrorM::InvalidArguments,
        Error::InvalidShUse => ErrorM::InvalidShUse,
        Error::InvalidSingleDerivation => ErrorM::InvalidSingleDerivation,
        Error::InvalidDescriptorDerivation => ErrorM::InvalidDescriptorDerivation,
        Error::ArrayIndexOutOfRange => ErrorM::ArrayIndexOutOfRange,
        Error::NoReturnValue => ErrorM::NoReturnValue,
        Error::DuplicateBinding(id) => ErrorM::DuplicateBinding(id.0@),
        Error::InvalidPubKey(s) => ErrorM::InvalidPubKey(s@),
        Error::InvalidHex(s) => ErrorM::InvalidHex(s@),
        Error::CompilerError(s) => ErrorM::CompilerError(s@),
        Error::DescriptorError(s) => ErrorM::DescriptorError(s@),
        Error::RecursionLimit => ErrorM::RecursionLimit,
        Error::CallError(id, inner) => ErrorM::CallError(
            id.0@,
            Box::new(error_view(*inner)),
        ),
    }
}

impl View for Error {
    type V = ErrorM;

    open spec fn view(&self) -> ErrorM {
        error_view(*self)
    }
}

} // verus!

//! The general laws of the library, stated over the same spec functions
//! that the executable functions' contracts use.

use vstd::prelude::*;
use crate::domain::{DescriptorM, PolicyM};
use crate::error::ErrorM;
use crate::runtime::{
    array_access_spec, as_descriptor_ok, as_policies, as_policy, ValueM,
};
use crate::stdlib::miniscript::{all_spec, builtin_thresh};

verus! {

/// N-ary boolean desugaring produces a threshold: a `thresh` call whose
/// count is `k` and whose remaining arguments are the operand values
/// yields exactly the `k`-of-all threshold over the operands' policies,
/// and fails exactly where an operand fails to stand for a policy. (The
/// one shape left out is a single operand that is itself an array, which
/// `thresh` reads as the list of its elements instead.)
pub proof fn law_thresh_of_operands(k: int, vals: Seq<ValueM>)
    requires
        !(vals.len() == 1 && vals[0] is Array),
    ensures
        builtin_thresh(seq![ValueM::Number(k)] + vals) == (match as_policies(vals) {
            Ok(ps) => Ok::<ValueM, ErrorM>(ValueM::Policy(PolicyM::Threshold(k, ps))),
            Err(e) => Err::<ValueM, ErrorM>(e),
        }),
{
    let args = seq![ValueM::Number(k)] + vals;
    assert(args[0] == ValueM::Number(k));
    assert(args.subrange(1, args.len() as int) =~= vals);
}

/// `thresh(n, arr)` and `thresh(n, e1, ..., en)` are equivalent when the
/// array holds the same element values. (The one shape left out is a
/// single element that is itself an array: handed directly, `thresh`
/// would read that inner array as the element list.)
pub proof fn law_thresh_array_equivalent(n: int, els: Seq<ValueM>)
    requires
        !(els.len() == 1 && els[0] is Array),
    ensures
        builtin_thresh(seq![ValueM::Number(n), ValueM::Array(els)]) == builtin_thresh(
            seq![ValueM::Number(n)] + els,
        ),
{
    let packed = seq![ValueM::Number(n), ValueM::Array(els)];
    assert(packed[0] == ValueM::Number(n));
    let rest = packed.subrange(1, 2);
    assert(rest.len() == 1 && rest[0] == ValueM::Array(els));
    law_thresh_of_operands(n, els);
}

/// Array indexing: access succeeds and returns the `i`-th element exactly
/// when `0 <= i < len`, and fails with the bounds error otherwise.
pub proof fn law_array_access(els: Seq<ValueM>, i: int)
    ensures
        (0 <= i < els.len()) <==> array_access_spec(ValueM::Array(els), ValueM::Number(i))
            is Ok,
        0 <= i < els.len() ==> array_access_spec(ValueM::Array(els), ValueM::Number(i)) == Ok::<
            ValueM,
            ErrorM,
        >(els[i]),
        !(0 <= i < els.len()) ==> array_access_spec(ValueM::Array(els), ValueM::Number(i))
            == Err::<ValueM, ErrorM>(ErrorM::ArrayIndexOutOfRange),
{
}

/// A compiled script wrapped as a segwit-v0 descriptor is accepted
/// anywhere a descriptor is required, and a policy whose compilation
/// succeeds widens to that same descriptor.
pub proof fn law_wsh_accepted_as_descriptor(t: Seq<char>, p: PolicyM)
    ensures
        as_descriptor_ok(ValueM::Miniscript(t)) == Some(DescriptorM::Wsh(t)),
        crate::bridge::compiled_of(crate::domain::policy_text(p)) matches Some(c)
            ==> as_descriptor_ok(ValueM::Policy(p)) == Some(DescriptorM::Wsh(c)),
{
}

/// A bare array standing where a policy is required behaves identically
/// to the `all` builtin applied to it: the conjunction of every element.
pub proof fn law_array_as_policy(els: Seq<ValueM>)
    ensures
        all_spec(ValueM::Array(els)) == (match as_policy(ValueM::Array(els)) {
            Ok(p) => Ok::<ValueM, ErrorM>(ValueM::Policy(p)),
            Err(e) => Err::<ValueM, ErrorM>(e),
        }),
{
}

/// Appending frames to the arena never changes what an existing scope
/// sees: with tree-shaped, read-through scope chains, a closure invoked
/// later -- after its defining block finished and from any calling scope
/// -- still reads its captured frame and that frame's ancestors
/// unchanged. Together with the activation-frame contract of the
/// evaluator's call path, this is the lexical-capture guarantee.
pub proof fn law_capture_stable(
    o: Seq<crate::scope::FrameM>,
    n: Seq<crate::scope::FrameM>,
    sc: int,
    name: Seq<char>,
)
    requires
        crate::scope::scope_wf(o),
        crate::scope::scope_wf(n),
        crate::runtime::frames_preserved(o, n),
        0 <= sc < o.len(),
    ensures
        crate::scope::lookup(n, sc, name) == crate::scope::lookup(o, sc, name),
{
    crate::runtime::lemma_lookup_stable(o, n, sc, name);
}

} // verus!

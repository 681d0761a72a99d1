//! The policy and descriptor builtins.

use vstd::prelude::*;
use crate::bridge::{compiled_of, explicit_script_of, p2wsh_of, script_p2wsh,
    descriptor_explicit_script};
use crate::domain::{
    descriptor_text, key_text, policy_text, Descriptor, DescriptorM, Policy, PolicyM,
};
use crate::error::{Error, ErrorM};
use crate::function::Builtin;
use crate::runtime::{
    as_policy, as_policies, lemma_as_policies_len, lemma_values_view, value_view, values_view,
    Value, ValueM,
};
use crate::function::Function;
use crate::scope::{find_bind, Scope};

verus! {

broadcast use vstd::std_specs::vec::group_vec_axioms;

/// What the `or` builtin makes of its arguments: each probability-tagged
/// policy keeps its weight, every other argument converts to a policy with
/// weight 1; the first failing conversion wins.
pub open spec fn or_pairs(args: Seq<ValueM>) -> Result<Seq<(int, PolicyM)>, ErrorM>
    decreases args,
{
    if args.len() == 0 {
        Ok(Seq::empty())
    } else {
        let head = match args[0] {
            ValueM::WithProb(w, p) => Ok((w, p)),
            v => match as_policy(v) {
                Ok(p) => Ok((1int, p)),
                Err(e) => Err(e),
            },
        };
        match head {
            Err(e) => Err(e),
            Ok(pr) => match or_pairs(args.subrange(1, args.len() as int)) {
                Ok(prs) => Ok(seq![pr] + prs),
                Err(e) => Err(e),
            },
        }
    }
}

/// The result of the `or` builtin: the disjunction of its arguments with
/// their probability weights.
pub open spec fn builtin_or(args: Seq<ValueM>) -> Result<ValueM, ErrorM> {
    match or_pairs(args) {
        Ok(prs) => Ok(ValueM::Policy(PolicyM::Or(prs))),
        Err(e) => Err(e),
    }
}

/// The result of the `and` builtin: the conjunction of its arguments.
pub open spec fn builtin_and(args: Seq<ValueM>) -> Result<ValueM, ErrorM> {
    match as_policies(args) {
        Ok(ps) => Ok(ValueM::Policy(PolicyM::And(ps))),
        Err(e) => Err(e),
    }
}

/// The result of the `thresh` builtin: the first argument is the
/// threshold count; one remaining array argument supplies the policies,
/// and otherwise the remaining arguments do directly.
pub open spec fn builtin_thresh(args: Seq<ValueM>) -> Result<ValueM, ErrorM> {
    if args.len() == 0 {
        Err(ErrorM::InvalidArguments)
    } else {
        match args[0] {
            ValueM::Number(n) => {
                let rest = args.subrange(1, args.len() as int);
                if rest.len() == 1 && rest[0] is Array {
                    match rest[0] {
                        ValueM::Array(els) => match as_policies(els) {
                            Ok(ps) => Ok(ValueM::Policy(PolicyM::Threshold(n, ps))),
                            Err(e) => Err(e),
                        },
                        _ => Err(ErrorM::InvalidArguments),
                    }
                } else {
                    match as_policies(rest) {
                        Ok(ps) => Ok(ValueM::Policy(PolicyM::Threshold(n, ps))),
                        Err(e) => Err(e),
                    }
                }
            },
            v => Err(ErrorM::NotNumber(v)),
        }
    }
}

/// The result of the `all` builtin: its one array argument as the
/// conjunction of every element.
pub open spec fn builtin_all(args: Seq<ValueM>) -> Result<ValueM, ErrorM> {
    if args.len() != 1 {
        Err(ErrorM::InvalidArguments)
    } else {
        all_spec(args[0])
    }
}

/// Conjunction-of-all-elements of one array value.
pub open spec fn all_spec(v: ValueM) -> Result<ValueM, ErrorM> {
    match v {
        ValueM::Array(els) => match as_policies(els) {
            Ok(ps) => Ok(ValueM::Policy(PolicyM::Threshold(els.len() as int, ps))),
            Err(e) => Err(e),
        },
        _ => Err(ErrorM::NotArray(v)),
    }
}

/// The result of the `any` builtin: its one array argument as a
/// threshold-of-one over every element.
pub open spec fn builtin_any(args: Seq<ValueM>) -> Result<ValueM, ErrorM> {
    if args.len() != 1 {
        Err(ErrorM::InvalidArguments)
    } else {
        match args[0] {
            ValueM::Array(els) => match as_policies(els) {
                Ok(ps) => Ok(ValueM::Policy(PolicyM::Threshold(1, ps))),
                Err(e) => Err(e),
            },
            v => Err(ErrorM::NotArray(v)),
        }
    }
}

/// Builds the disjunction of the arguments, each optionally
/// probability-weighted.
#[verifier::loop_isolation(false)]
pub fn or(args: Vec<Value>) -> (r: Result<Value, Error>)
    ensures
        r matches Ok(v) ==> builtin_or(values_view(args@)) == Ok::<ValueM, ErrorM>(v@),
        r matches Err(e) ==> builtin_or(values_view(args@)) == Err::<ValueM, ErrorM>(e@),
{
    let ghost whole = values_view(args@);
    proof {
        lemma_values_view(args@);
        assert(whole.subrange(0, whole.len() as int) =~= whole);
    }
    let n = args.len();
    let mut out: Vec<(usize, Policy)> = Vec::new();
    let mut i: usize = 0;
    while i < n
        invariant
            i <= n,
            out@.len() == i as int,
            whole == values_view(args@),
            ({
                let tail = whole.subrange(i as int, n as int);
                match or_pairs(tail) {
                    Ok(tailprs) => or_pairs(whole) == Ok::<Seq<(int, PolicyM)>, ErrorM>(
                        crate::domain::pairs_view(out@) + tailprs,
                    ),
                    Err(e) => or_pairs(whole) == Err::<Seq<(int, PolicyM)>, ErrorM>(e),
                }
            }),
        decreases n - i,
    {
        proof {
            let tail = whole.subrange(i as int, n as int);
            assert(tail[0] == whole[i as int]);
            assert(tail.subrange(1, tail.len() as int) =~= whole.subrange(i + 1, n as int));
        }
        let pr: (usize, Policy) = match &args[i] {
            Value::WithProb(w, p) => (*w, p.duplicate()),
            v => match policy_weight_one(v) {
                Ok(pr) => pr,
                Err(e) => {
                    return Err(e);
                },
            },
        };
        let ghost oldout = out@;
        out.push(pr);
        proof {
            crate::domain::lemma_pairs_view(oldout);
            crate::domain::lemma_pairs_view(out@);
            assert(out@ =~= oldout.push(pr));
            assert(crate::domain::pairs_view(out@) =~= crate::domain::pairs_view(oldout).push(
                (pr.0 as int, crate::domain::policy_view(pr.1)),
            ));
            let tail2 = whole.subrange(i + 1, n as int);
            if or_pairs(tail2) is Ok {
                assert(crate::domain::pairs_view(oldout).push(
                    (pr.0 as int, crate::domain::policy_view(pr.1)),
                ) + or_pairs(tail2)->Ok_0 =~= crate::domain::pairs_view(oldout) + (seq![
                    (pr.0 as int, crate::domain::policy_view(pr.1)),
                ] + or_pairs(tail2)->Ok_0));
            }
        }
        i = i + 1;
    }
    proof {
        assert(whole.subrange(n as int, n as int) =~= Seq::<ValueM>::empty());
        assert(crate::domain::pairs_view(out@) + Seq::<(int, PolicyM)>::empty()
            =~= crate::domain::pairs_view(out@));
    }
    Ok(Value::Policy(Policy::Or(out)))
}

/// Converts one `or` argument that carries no weight: weight 1 and the
/// policy it narrows to.
fn policy_weight_one(v: &Value) -> (r: Result<(usize, Policy), Error>)
    requires
        !(v@ is WithProb),
    ensures
        r matches Ok(pr) ==> pr.0 == 1usize && as_policy(v@) == Ok::<PolicyM, ErrorM>(pr.1@),
        r matches Err(e) ==> as_policy(v@) == Err::<PolicyM, ErrorM>(e@),
{
    match v.duplicate().into_policy() {
        Ok(p) => Ok((1, p)),
        Err(e) => Err(e),
    }
}

/// Builds the conjunction of the arguments.
pub fn and(args: Vec<Value>) -> (r: Result<Value, Error>)
    ensures
        r matches Ok(v) ==> builtin_and(values_view(args@)) == Ok::<ValueM, ErrorM>(v@),
        r matches Err(e) ==> builtin_and(values_view(args@)) == Err::<ValueM, ErrorM>(e@),
{
    match map_policy(args) {
        Ok(ps) => Ok(Value::Policy(Policy::And(ps))),
        Err(e) => Err(e),
    }
}

/// Builds an at-least-`n` threshold. Accepts `thresh(n, array)` as well as
/// `thresh(n, policy, policy, ...)`.
pub fn thresh(args: Vec<Value>) -> (r: Result<Value, Error>)
    ensures
        r matches Ok(v) ==> builtin_thresh(values_view(args@)) == Ok::<ValueM, ErrorM>(v@),
        r matches Err(e) ==> builtin_thresh(values_view(args@)) == Err::<ValueM, ErrorM>(e@),
{
    proof {
        lemma_values_view(args@);
    }
    let ghost whole = values_view(args@);
    if args.len() == 0 {
        return Err(Error::InvalidArguments);
    }
    let thresh_n = match args[0].duplicate().into_usize() {
        Ok(n) => n,
        Err(e) => {
            return Err(e);
        },
    };
    let single_array = args.len() == 2 && args[1].is_array();
    proof {
        let rest = whole.subrange(1, whole.len() as int);
        assert(rest.len() == whole.len() - 1);
        if args@.len() >= 2 {
            assert(rest[0] == whole[1]);
        }
        assert(single_array == (rest.len() == 1 && rest[0] is Array));
    }
    if single_array {
        match map_policy_array(args[1].duplicate()) {
            Ok(ps) => {
                proof {
                    crate::domain::lemma_policies_view(ps@);
                }
                Ok(Value::Policy(Policy::Threshold(thresh_n, ps)))
            },
            Err(e) => Err(e),
        }
    } else {
        let rest = crate::runtime::duplicate_tail(&args, 1);
        match map_policy(rest) {
            Ok(ps) => Ok(Value::Policy(Policy::Threshold(thresh_n, ps))),
            Err(e) => Err(e),
        }
    }
}

/// Narrows every element to a policy, left to right.
pub fn map_policy(args: Vec<Value>) -> (r: Result<Vec<Policy>, Error>)
    ensures
        r matches Ok(ps) ==> as_policies(values_view(args@)) == Ok::<Seq<PolicyM>, ErrorM>(
            crate::domain::policies_view(ps@),
        ),
        r matches Err(e) ==> as_policies(values_view(args@)) == Err::<Seq<PolicyM>, ErrorM>(e@),
{
    crate::runtime::policies_of(&args)
}

/// The result of the `older` builtin: a relative time-lock from one
/// number that fits 32 bits.
pub open spec fn builtin_older(args: Seq<ValueM>) -> Result<ValueM, ErrorM> {
    if args.len() != 1 {
        Err(ErrorM::InvalidArguments)
    } else {
        match args[0] {
            ValueM::Number(n) => if n <= u32::MAX {
                Ok(ValueM::Policy(PolicyM::Older(n)))
            } else {
                Err(ErrorM::InvalidArguments)
            },
            v => Err(ErrorM::NotNumber(v)),
        }
    }
}

/// The result of the `after` builtin: an absolute time-lock from one
/// number that fits 32 bits.
pub open spec fn builtin_after(args: Seq<ValueM>) -> Result<ValueM, ErrorM> {
    if args.len() != 1 {
        Err(ErrorM::InvalidArguments)
    } else {
        match args[0] {
            ValueM::Number(n) => if n <= u32::MAX {
                Ok(ValueM::Policy(PolicyM::After(n)))
            } else {
                Err(ErrorM::InvalidArguments)
            },
            v => Err(ErrorM::NotNumber(v)),
        }
    }
}

/// The result of the `pk` builtin: a single-key policy.
pub open spec fn builtin_pk(args: Seq<ValueM>) -> Result<ValueM, ErrorM> {
    if args.len() != 1 {
        Err(ErrorM::InvalidArguments)
    } else {
        match args[0] {
            ValueM::PubKey(k) => Ok(ValueM::Policy(PolicyM::Key(k))),
            v => Err(ErrorM::NotPubKey(v)),
        }
    }
}

/// The result of one hash builtin: raw hash bytes of the algorithm's
/// digest length become the matching hash policy; a wrong length or a
/// value of another kind fails with the hash mismatch error.
pub open spec fn builtin_hash(
    args: Seq<ValueM>,
    digest_len: int,
    which: Builtin,
) -> Result<ValueM, ErrorM> {
    if args.len() != 1 {
        Err(ErrorM::InvalidArguments)
    } else {
        match args[0] {
            ValueM::Hash(h) => if h.len() == digest_len {
                Ok(ValueM::Policy(hash_policy(which, h)))
            } else {
                Err(ErrorM::NotHash(ValueM::Hash(h)))
            },
            v => Err(ErrorM::NotHash(v)),
        }
    }
}

/// The policy node a hash builtin builds.
pub open spec fn hash_policy(which: Builtin, h: Seq<u8>) -> PolicyM {
    match which {
        Builtin::Sha256 => PolicyM::Sha256(h),
        Builtin::Hash256 => PolicyM::Hash256(h),
        Builtin::Ripemd160 => PolicyM::Ripemd160(h),
        _ => PolicyM::Hash160(h),
    }
}

/// What the `miniscript` builtin returns: its one argument narrowed to a
/// compiled script. Where the external compiler rejects a policy the error
/// carries its diagnostic, which is not otherwise specified.
pub open spec fn miniscript_matches(args: Seq<ValueM>, r: Result<ValueM, ErrorM>) -> bool {
    if args.len() != 1 {
        r == Err::<ValueM, ErrorM>(ErrorM::InvalidArguments)
    } else {
        match args[0] {
            ValueM::Miniscript(t) => r == Ok::<ValueM, ErrorM>(ValueM::Miniscript(t)),
            ValueM::Policy(p) => match compiled_of(policy_text(p)) {
                Some(t) => r == Ok::<ValueM, ErrorM>(ValueM::Miniscript(t)),
                None => r matches Err(e) && e is CompilerError,
            },
            v => r == Err::<ValueM, ErrorM>(ErrorM::NotMiniscriptLike(v)),
        }
    }
}

/// The result of the `wpkh` builtin: a pay-to-witness-pubkey-hash
/// descriptor around one key.
pub open spec fn builtin_wpkh(args: Seq<ValueM>) -> Result<ValueM, ErrorM> {
    if args.len() != 1 {
        Err(ErrorM::InvalidArguments)
    } else {
        match args[0] {
            ValueM::PubKey(k) => Ok(ValueM::Descriptor(DescriptorM::Wpkh(key_text(k)))),
            v => Err(ErrorM::NotPubKey(v)),
        }
    }
}

/// What the `wsh` builtin returns: a policy or compiled script becomes a
/// segwit-v0 script descriptor; a raw witness script becomes its
/// pay-to-witness-script-hash scriptPubKey.
pub open spec fn wsh_matches(args: Seq<ValueM>, r: Result<ValueM, ErrorM>) -> bool {
    if args.len() != 1 {
        r == Err::<ValueM, ErrorM>(ErrorM::InvalidArguments)
    } else {
        match args[0] {
            ValueM::Miniscript(t) => r == Ok::<ValueM, ErrorM>(
                ValueM::Descriptor(DescriptorM::Wsh(t)),
            ),
            ValueM::Policy(p) => match compiled_of(policy_text(p)) {
                Some(t) => r == Ok::<ValueM, ErrorM>(ValueM::Descriptor(DescriptorM::Wsh(t))),
                None => r matches Err(e) && e is CompilerError,
            },
            ValueM::Script(b) => r == Ok::<ValueM, ErrorM>(ValueM::Script(p2wsh_of(b))),
            _ => r == Err::<ValueM, ErrorM>(ErrorM::InvalidArguments),
        }
    }
}

/// The result of the `sh` builtin: only an existing `wsh` or `wpkh`
/// descriptor may be wrapped; anything else is the sh-misuse error.
pub open spec fn builtin_sh(args: Seq<ValueM>) -> Result<ValueM, ErrorM> {
    if args.len() != 1 {
        Err(ErrorM::InvalidArguments)
    } else {
        match args[0] {
            ValueM::Descriptor(d) => match d {
                DescriptorM::Wsh(b) => Ok(ValueM::Descriptor(DescriptorM::ShWsh(b))),
                DescriptorM::Wpkh(b) => Ok(ValueM::Descriptor(DescriptorM::ShWpkh(b))),
                _ => Err(ErrorM::InvalidShUse),
            },
            _ => Err(ErrorM::InvalidShUse),
        }
    }
}

/// What the `script_pubkey` builtin returns: the scriptPubKey of its one
/// argument seen as a descriptor.
pub open spec fn script_pubkey_matches(args: Seq<ValueM>, r: Result<ValueM, ErrorM>) -> bool {
    if args.len() != 1 {
        r == Err::<ValueM, ErrorM>(ErrorM::InvalidArguments)
    } else {
        match crate::runtime::as_descriptor_ok(args[0]) {
            Some(d) => match crate::bridge::script_pubkey_of(descriptor_text(d)) {
                Some(b) => r == Ok::<ValueM, ErrorM>(ValueM::Script(b)),
                None => r matches Err(e) && e is DescriptorError,
            },
            None => r is Err,
        }
    }
}

/// What the `explicit_script` builtin returns: the witness or redeem
/// script of its one argument seen as a descriptor.
pub open spec fn explicit_script_matches(args: Seq<ValueM>, r: Result<ValueM, ErrorM>) -> bool {
    if args.len() != 1 {
        r == Err::<ValueM, ErrorM>(ErrorM::InvalidArguments)
    } else {
        match crate::runtime::as_descriptor_ok(args[0]) {
            Some(d) => match explicit_script_of(descriptor_text(d)) {
                Some(b) => r == Ok::<ValueM, ErrorM>(ValueM::Script(b)),
                None => r matches Err(e) && e is DescriptorError,
            },
            None => r is Err,
        }
    }
}

/// The result of the `prob` builtin: a probability weight and a
/// policy-like value become a probability-tagged policy.
pub open spec fn builtin_prob(args: Seq<ValueM>) -> Result<ValueM, ErrorM> {
    if args.len() != 2 {
        Err(ErrorM::InvalidArguments)
    } else {
        match args[0] {
            ValueM::Number(w) => match as_policy(args[1]) {
                Ok(p) => Ok(ValueM::WithProb(w, p)),
                Err(e) => Err(e),
            },
            v => Err(ErrorM::NotNumber(v)),
        }
    }
}

/// Takes the single argument of a one-argument builtin.
fn one_arg(args: &Vec<Value>) -> (r: Result<Value, Error>)
    ensures
        values_view(args@).len() == args@.len(),
        r matches Ok(v) ==> args@.len() == 1 && values_view(args@) == seq![v@],
        r is Err <==> args@.len() != 1,
        r matches Err(e) ==> e@ == ErrorM::InvalidArguments,
{
    proof {
        lemma_values_view(args@);
    }
    if args.len() != 1 {
        Err(Error::InvalidArguments)
    } else {
        let v = args[0].duplicate();
        proof {
            assert(values_view(args@) =~= seq![v@]);
        }
        Ok(v)
    }
}

/// Builds a relative time-lock policy.
pub fn older(args: Vec<Value>) -> (r: Result<Value, Error>)
    ensures
        r matches Ok(v) ==> builtin_older(values_view(args@)) == Ok::<ValueM, ErrorM>(v@),
        r matches Err(e) ==> builtin_older(values_view(args@)) == Err::<ValueM, ErrorM>(e@),
{
    let v = match one_arg(&args) {
        Ok(v) => v,
        Err(e) => {
            return Err(e);
        },
    };
    match v.into_usize() {
        Ok(n) => if n <= u32::MAX as usize {
            Ok(Value::Policy(Policy::Older(n as u32)))
        } else {
            Err(Error::InvalidArguments)
        },
        Err(e) => Err(e),
    }
}

/// Builds an absolute time-lock policy.
pub fn after(args: Vec<Value>) -> (r: Result<Value, Error>)
    ensures
        r matches Ok(v) ==> builtin_after(values_view(args@)) == Ok::<ValueM, ErrorM>(v@),
        r matches Err(e) ==> builtin_after(values_view(args@)) == Err::<ValueM, ErrorM>(e@),
{
    let v = match one_arg(&args) {
        Ok(v) => v,
        Err(e) => {
            return Err(e);
        },
    };
    match v.into_usize() {
        Ok(n) => if n <= u32::MAX as usize {
            Ok(Value::Policy(Policy::After(n as u32)))
        } else {
            Err(Error::InvalidArguments)
        },
        Err(e) => Err(e),
    }
}

/// Builds a single-key policy.
pub fn pk(args: Vec<Value>) -> (r: Result<Value, Error>)
    ensures
        r matches Ok(v) ==> builtin_pk(values_view(args@)) == Ok::<ValueM, ErrorM>(v@),
        r matches Err(e) ==> builtin_pk(values_view(args@)) == Err::<ValueM, ErrorM>(e@),
{
    let v = match one_arg(&args) {
        Ok(v) => v,
        Err(e) => {
            return Err(e);
        },
    };
    match v.into_key() {
        Ok(k) => Ok(Value::Policy(Policy::Key(k))),
        Err(e) => Err(e),
    }
}

/// Takes one hash argument of the given digest length.
fn hash_arg(args: Vec<Value>, digest_len: usize) -> (r: Result<Vec<u8>, Error>)
    ensures
        r matches Ok(h) ==> values_view(args@) =~= seq![ValueM::Hash(h@)] && h@.len()
            == digest_len,
        r matches Err(e) ==> builtin_hash(values_view(args@), digest_len as int, Builtin::Sha256)
            == Err::<ValueM, ErrorM>(e@) && builtin_hash(
            values_view(args@),
            digest_len as int,
            Builtin::Hash256,
        ) == Err::<ValueM, ErrorM>(e@) && builtin_hash(
            values_view(args@),
            digest_len as int,
            Builtin::Ripemd160,
        ) == Err::<ValueM, ErrorM>(e@) && builtin_hash(
            values_view(args@),
            digest_len as int,
            Builtin::Hash160,
        ) == Err::<ValueM, ErrorM>(e@),
{
    let v = match one_arg(&args) {
        Ok(v) => v,
        Err(e) => {
            return Err(e);
        },
    };
    match v.into_bytes() {
        Ok(h) => if h.len() == digest_len {
            Ok(h)
        } else {
            Err(Error::NotHash(Box::new(Value::Hash(h))))
        },
        Err(e) => Err(e),
    }
}

/// Builds a SHA-256 hash-lock policy from 32 raw hash bytes.
pub fn sha256(args: Vec<Value>) -> (r: Result<Value, Error>)
    ensures
        r matches Ok(v) ==> builtin_hash(values_view(args@), 32, Builtin::Sha256) == Ok::<
            ValueM,
            ErrorM,
        >(v@),
        r matches Err(e) ==> builtin_hash(values_view(args@), 32, Builtin::Sha256) == Err::<
            ValueM,
            ErrorM,
        >(e@),
{
    match hash_arg(args, 32) {
        Ok(h) => Ok(Value::Policy(Policy::Sha256(h))),
        Err(e) => Err(e),
    }
}

/// Builds a double-SHA-256 hash-lock policy from 32 raw hash bytes.
pub fn hash256(args: Vec<Value>) -> (r: Result<Value, Error>)
    ensures
        r matches Ok(v) ==> builtin_hash(values_view(args@), 32, Builtin::Hash256) == Ok::<
            ValueM,
            ErrorM,
        >(v@),
        r matches Err(e) ==> builtin_hash(values_view(args@), 32, Builtin::Hash256) == Err::<
            ValueM,
            ErrorM,
        >(e@),
{
    match hash_arg(args, 32) {
        Ok(h) => Ok(Value::Policy(Policy::Hash256(h))),
        Err(e) => Err(e),
    }
}

/// Builds a RIPEMD-160 hash-lock policy from 20 raw hash bytes.
pub fn ripemd160(args: Vec<Value>) -> (r: Result<Value, Error>)
    ensures
        r matches Ok(v) ==> builtin_hash(values_view(args@), 20, Builtin::Ripemd160) == Ok::<
            ValueM,
            ErrorM,
        >(v@),
        r matches Err(e) ==> builtin_hash(values_view(args@), 20, Builtin::Ripemd160) == Err::<
            ValueM,
            ErrorM,
        >(e@),
{
    match hash_arg(args, 20) {
        Ok(h) => Ok(Value::Policy(Policy::Ripemd160(h))),
        Err(e) => Err(e),
    }
}

/// Builds a HASH-160 hash-lock policy from 20 raw hash bytes.
pub fn hash160(args: Vec<Value>) -> (r: Result<Value, Error>)
    ensures
        r matches Ok(v) ==> builtin_hash(values_view(args@), 20, Builtin::Hash160) == Ok::<
            ValueM,
            ErrorM,
        >(v@),
        r matches Err(e) ==> builtin_hash(values_view(args@), 20, Builtin::Hash160) == Err::<
            ValueM,
            ErrorM,
        >(e@),
{
    match hash_arg(args, 20) {
        Ok(h) => Ok(Value::Policy(Policy::Hash160(h))),
        Err(e) => Err(e),
    }
}

/// Narrows the one argument to a compiled script, compiling a policy
/// through the external compiler.
pub fn miniscript(args: Vec<Value>) -> (r: Result<Value, Error>)
    ensures
        miniscript_matches(values_view(args@), match r {
            Ok(v) => Ok(v@),
            Err(e) => Err(e@),
        }),
{
    let v = match one_arg(&args) {
        Ok(v) => v,
        Err(e) => {
            return Err(e);
        },
    };
    match v.into_miniscript() {
        Ok(m) => Ok(Value::Miniscript(m)),
        Err(e) => Err(e),
    }
}

/// Wraps the one key argument as a pay-to-witness-pubkey-hash descriptor.
pub fn wpkh(args: Vec<Value>) -> (r: Result<Value, Error>)
    ensures
        r matches Ok(v) ==> builtin_wpkh(values_view(args@)) == Ok::<ValueM, ErrorM>(v@),
        r matches Err(e) ==> builtin_wpkh(values_view(args@)) == Err::<ValueM, ErrorM>(e@),
{
    let v = match one_arg(&args) {
        Ok(v) => v,
        Err(e) => {
            return Err(e);
        },
    };
    match v.into_key() {
        Ok(k) => Ok(Value::Descriptor(Descriptor::Wpkh(k.render()))),
        Err(e) => Err(e),
    }
}

/// Wraps a policy or compiled script as a segwit-v0 descriptor, or turns a
/// raw witness script into its pay-to-witness-script-hash scriptPubKey.
pub fn wsh(args: Vec<Value>) -> (r: Result<Value, Error>)
    ensures
        wsh_matches(values_view(args@), match r {
            Ok(v) => Ok(v@),
            Err(e) => Err(e@),
        }),
{
    let v = match one_arg(&args) {
        Ok(v) => v,
        Err(e) => {
            return Err(e);
        },
    };
    if v.is_miniscript_like() {
        match v.into_miniscript() {
            Ok(m) => Ok(Value::Descriptor(Descriptor::Wsh(m.0))),
            Err(e) => Err(e),
        }
    } else {
        match v {
            Value::Script(b) => Ok(Value::Script(script_p2wsh(&b))),
            _ => Err(Error::InvalidArguments),
        }
    }
}

/// Wraps an existing `wsh` or `wpkh` descriptor in `sh`; every other value
/// is the sh-misuse error.
pub fn sh(args: Vec<Value>) -> (r: Result<Value, Error>)
    ensures
        r matches Ok(v) ==> builtin_sh(values_view(args@)) == Ok::<ValueM, ErrorM>(v@),
        r matches Err(e) ==> builtin_sh(values_view(args@)) == Err::<ValueM, ErrorM>(e@),
{
    let v = match one_arg(&args) {
        Ok(v) => v,
        Err(e) => {
            return Err(e);
        },
    };
    match v {
        Value::Descriptor(d) => match d {
            Descriptor::Wsh(b) => Ok(Value::Descriptor(Descriptor::ShWsh(b))),
            Descriptor::Wpkh(b) => Ok(Value::Descriptor(Descriptor::ShWpkh(b))),
            _ => Err(Error::InvalidShUse),
        },
        _ => Err(Error::InvalidShUse),
    }
}

/// The scriptPubKey of the one argument seen as a descriptor.
pub fn script_pubkey(args: Vec<Value>) -> (r: Result<Value, Error>)
    ensures
        script_pubkey_matches(values_view(args@), match r {
            Ok(v) => Ok(v@),
            Err(e) => Err(e@),
        }),
{
    let v = match one_arg(&args) {
        Ok(v) => v,
        Err(e) => {
            return Err(e);
        },
    };
    match v.into_script_pubkey() {
        Ok(b) => Ok(Value::Script(b)),
        Err(e) => Err(e),
    }
}

/// The witness or redeem script of the one argument seen as a descriptor.
pub fn explicit_script(args: Vec<Value>) -> (r: Result<Value, Error>)
    ensures
        explicit_script_matches(values_view(args@), match r {
            Ok(v) => Ok(v@),
            Err(e) => Err(e@),
        }),
{
    let v = match one_arg(&args) {
        Ok(v) => v,
        Err(e) => {
            return Err(e);
        },
    };
    let desc = match v.into_desc() {
        Ok(d) => d,
        Err(e) => {
            return Err(e);
        },
    };
    let text = desc.render();
    match descriptor_explicit_script(text.as_str()) {
        Ok(b) => Ok(Value::Script(b)),
        Err(msg) => Err(Error::DescriptorError(msg)),
    }
}

/// Turns one array argument into the conjunction of all its elements.
pub fn all(args: Vec<Value>) -> (r: Result<Value, Error>)
    ensures
        r matches Ok(v) ==> builtin_all(values_view(args@)) == Ok::<ValueM, ErrorM>(v@),
        r matches Err(e) ==> builtin_all(values_view(args@)) == Err::<ValueM, ErrorM>(e@),
{
    let v = match one_arg(&args) {
        Ok(v) => v,
        Err(e) => {
            return Err(e);
        },
    };
    all_(v)
}

/// Conjunction-of-all-elements of one array value.
pub fn all_(array: Value) -> (r: Result<Value, Error>)
    ensures
        r matches Ok(v) ==> all_spec(array@) == Ok::<ValueM, ErrorM>(v@),
        r matches Err(e) ==> all_spec(array@) == Err::<ValueM, ErrorM>(e@),
{
    match map_policy_array(array) {
        Ok(ps) => {
            proof {
                crate::domain::lemma_policies_view(ps@);
                if array@ is Array {
                    lemma_as_policies_len(array@->Array_0);
                }
            }
            Ok(Value::Policy(Policy::Threshold(ps.len(), ps)))
        },
        Err(e) => Err(e),
    }
}

/// Turns one array argument into a threshold-of-one over its elements.
pub fn any(args: Vec<Value>) -> (r: Result<Value, Error>)
    ensures
        r matches Ok(v) ==> builtin_any(values_view(args@)) == Ok::<ValueM, ErrorM>(v@),
        r matches Err(e) ==> builtin_any(values_view(args@)) == Err::<ValueM, ErrorM>(e@),
{
    let v = match one_arg(&args) {
        Ok(v) => v,
        Err(e) => {
            return Err(e);
        },
    };
    match map_policy_array(v) {
        Ok(ps) => Ok(Value::Policy(Policy::Threshold(1, ps))),
        Err(e) => Err(e),
    }
}

/// Tags a policy-like value with a probability weight.
pub fn prob(args: Vec<Value>) -> (r: Result<Value, Error>)
    ensures
        r matches Ok(v) ==> builtin_prob(values_view(args@)) == Ok::<ValueM, ErrorM>(v@),
        r matches Err(e) ==> builtin_prob(values_view(args@)) == Err::<ValueM, ErrorM>(e@),
{
    proof {
        lemma_values_view(args@);
    }
    if args.len() != 2 {
        return Err(Error::InvalidArguments);
    }
    let w = match args[0].duplicate().into_usize() {
        Ok(n) => n,
        Err(e) => {
            return Err(e);
        },
    };
    match args[1].duplicate().into_policy() {
        Ok(p) => Ok(Value::WithProb(w, p)),
        Err(e) => Err(e),
    }
}

/// The probability weight that the `likely` literal stands for.
pub const LIKELY_PROB: usize = 10;

/// The policy and descriptor builtins by name, as the root frame gets
/// them.
pub open spec fn policy_stdlib() -> Seq<(Seq<char>, Builtin)> {
    seq![
        ("or"@, Builtin::Or),
        ("and"@, Builtin::And),
        ("thresh"@, Builtin::Thresh),
        ("older"@, Builtin::Older),
        ("after"@, Builtin::After),
        ("pk"@, Builtin::Pk),
        ("sha256"@, Builtin::Sha256),
        ("hash256"@, Builtin::Hash256),
        ("ripemd160"@, Builtin::Ripemd160),
        ("hash160"@, Builtin::Hash160),
        ("wpkh"@, Builtin::Wpkh),
        ("wsh"@, Builtin::Wsh),
        ("sh"@, Builtin::Sh),
        ("all"@, Builtin::All),
        ("any"@, Builtin::Any),
        ("miniscript"@, Builtin::Miniscript),
        ("script_pubkey"@, Builtin::ScriptPubkey),
        ("explicit_script"@, Builtin::ExplicitScript),
        ("prob"@, Builtin::Prob),
    ]
}

/// Registers the policy and descriptor builtins, and the `likely` weight
/// literal, in the root frame. Bindings already present stay where they
/// are; each absent builtin name becomes bound to its builtin, and an
/// absent `likely` becomes the weight 10.
pub fn attach_stdlib(scope: &mut Scope)
    requires
        crate::scope::scope_wf(old(scope)@),
        old(scope)@.len() >= 1,
    ensures
        crate::scope::scope_wf(final(scope)@),
        final(scope)@.len() == old(scope)@.len(),
        forall|i: int| 1 <= i < old(scope)@.len() ==> final(scope)@[i] == old(scope)@[i],
        final(scope)@[0].parent == old(scope)@[0].parent,
        old(scope)@[0].binds.is_prefix_of(final(scope)@[0].binds),
        forall|n: Seq<char>, v: ValueM|
            find_bind(old(scope)@[0].binds, n) == Some(v) ==> find_bind(
                final(scope)@[0].binds,
                n,
            ) == Some(v),
        forall|j: int|
            0 <= j < policy_stdlib().len() && find_bind(
                old(scope)@[0].binds,
                policy_stdlib()[j].0,
            ) is None ==> find_bind(final(scope)@[0].binds, policy_stdlib()[j].0) == Some(
                ValueM::Function(Function::Builtin(policy_stdlib()[j].1)),
            ),
        find_bind(old(scope)@[0].binds, "likely"@) is None ==> find_bind(
            final(scope)@[0].binds,
            "likely"@,
        ) == Some(ValueM::Number(LIKELY_PROB as int)),
{
    let mut items: Vec<(&str, Builtin)> = Vec::new();
    items.push(("or", Builtin::Or));
    items.push(("and", Builtin::And));
    items.push(("thresh", Builtin::Thresh));
    items.push(("older", Builtin::Older));
    items.push(("after", Builtin::After));
    items.push(("pk", Builtin::Pk));
    items.push(("sha256", Builtin::Sha256));
    items.push(("hash256", Builtin::Hash256));
    items.push(("ripemd160", Builtin::Ripemd160));
    items.push(("hash160", Builtin::Hash160));
    items.push(("wpkh", Builtin::Wpkh));
    items.push(("wsh", Builtin::Wsh));
    items.push(("sh", Builtin::Sh));
    items.push(("all", Builtin::All));
    items.push(("any", Builtin::Any));
    items.push(("miniscript", Builtin::Miniscript));
    items.push(("script_pubkey", Builtin::ScriptPubkey));
    items.push(("explicit_script", Builtin::ExplicitScript));
    items.push(("prob", Builtin::Prob));
    proof {
        lemma_policy_names_distinct();
        assert(items@.len() == policy_stdlib().len());
        assert forall|j: int| 0 <= j < items@.len() implies items@[j].0@ == policy_stdlib()[j].0
            && items@[j].1 == policy_stdlib()[j].1 by {}
        assert forall|i: int, j: int| 0 <= i < j < items@.len() implies items@[i].0@
            != items@[j].0@ by {}
    }
    reg_all(scope, items);
    let ghost mid = scope@[0].binds;
    proof {
        lemma_policy_names_distinct();
        assert forall|j: int|
            0 <= j < policy_stdlib().len() implies "likely"@ != policy_stdlib()[j].0 by {}
        if find_bind(old(scope)@[0].binds, "likely"@) is None {
            assert(find_bind(mid, "likely"@) is None);
        }
    }
    let likely = crate::ast::Ident("likely".to_owned());
    let outcome = scope.set(0, likely, Value::Number(LIKELY_PROB));
    proof {
        lemma_reg_effect(
            mid,
            scope@[0].binds,
            "likely"@,
            ValueM::Number(LIKELY_PROB as int),
            outcome is Ok,
        );
        crate::scope::lemma_prefix_trans(old(scope)@[0].binds, mid, scope@[0].binds);
    }
    match outcome {
        _ => (),
    }
}

/// The policy-builtin names are pairwise distinct.
pub(crate) proof fn lemma_policy_names_distinct()
    ensures
        "or"@.len() == 2 && "and"@.len() == 3 && "thresh"@.len() == 6 && "older"@.len() == 5
            && "after"@.len() == 5 && "pk"@.len() == 2 && "sha256"@.len() == 6 && "hash256"@.len()
            == 7 && "ripemd160"@.len() == 9 && "hash160"@.len() == 7 && "wpkh"@.len() == 4
            && "wsh"@.len() == 3 && "sh"@.len() == 2 && "all"@.len() == 3 && "any"@.len() == 3
            && "miniscript"@.len() == 10 && "script_pubkey"@.len() == 13
            && "explicit_script"@.len() == 15 && "prob"@.len() == 4 && "likely"@.len() == 6,
        "or"@[0] == 'o' && "pk"@[0] == 'p' && "sh"@[0] == 's',
        "and"@[0] == 'a' && "wsh"@[0] == 'w' && "all"@[0] == 'a' && "any"@[0] == 'a',
        "and"@[1] == 'n' && "all"@[1] == 'l' && "any"@[1] == 'n',
        "and"@[2] == 'd' && "any"@[2] == 'y',
        "wpkh"@[0] == 'w' && "prob"@[0] == 'p',
        "older"@[0] == 'o' && "after"@[0] == 'a',
        "thresh"@[0] == 't' && "sha256"@[0] == 's',
        "hash256"@[4] == '2' && "hash160"@[4] == '1',
        "hash256"@[0] == 'h' && "hash160"@[0] == 'h' && "ripemd160"@[1] == 'i',
        "or"@[1] == 'r' && "pk"@[1] == 'k' && "sh"@[1] == 'h',
        "likely"@[0] == 'l',
{
    reveal_strlit("likely");
    reveal_strlit("or");
    reveal_strlit("and");
    reveal_strlit("thresh");
    reveal_strlit("older");
    reveal_strlit("after");
    reveal_strlit("pk");
    reveal_strlit("sha256");
    reveal_strlit("hash256");
    reveal_strlit("ripemd160");
    reveal_strlit("hash160");
    reveal_strlit("wpkh");
    reveal_strlit("wsh");
    reveal_strlit("sh");
    reveal_strlit("all");
    reveal_strlit("any");
    reveal_strlit("miniscript");
    reveal_strlit("script_pubkey");
    reveal_strlit("explicit_script");
    reveal_strlit("prob");
}

/// Registers a list of builtins with pairwise-distinct names in the root
/// frame, in order. Existing bindings stay where they are; each listed
/// name that was absent becomes bound to its builtin; every other absent
/// name stays absent.
#[verifier::loop_isolation(false)]
pub(crate) fn reg_all(scope: &mut Scope, items: Vec<(&str, Builtin)>)
    requires
        crate::scope::scope_wf(old(scope)@),
        old(scope)@.len() >= 1,
        forall|i: int, j: int| 0 <= i < j < items@.len() ==> items@[i].0@ != items@[j].0@,
    ensures
        crate::scope::scope_wf(final(scope)@),
        final(scope)@.len() == old(scope)@.len(),
        forall|i: int| 1 <= i < old(scope)@.len() ==> final(scope)@[i] == old(scope)@[i],
        final(scope)@[0].parent == old(scope)@[0].parent,
        old(scope)@[0].binds.is_prefix_of(final(scope)@[0].binds),
        forall|n: Seq<char>, v: ValueM|
            find_bind(old(scope)@[0].binds, n) == Some(v) ==> find_bind(
                final(scope)@[0].binds,
                n,
            ) == Some(v),
        forall|n: Seq<char>|
            (find_bind(old(scope)@[0].binds, n) is None && (forall|j: int|
                0 <= j < items@.len() ==> n != items@[j].0@)) ==> find_bind(
                final(scope)@[0].binds,
                n,
            ) is None,
        forall|j: int|
            0 <= j < items@.len() && find_bind(old(scope)@[0].binds, items@[j].0@) is None
                ==> find_bind(final(scope)@[0].binds, items@[j].0@) == Some(
                ValueM::Function(Function::Builtin(items@[j].1)),
            ),
{
    let mut i: usize = 0;
    while i < items.len()
        invariant
            i <= items@.len(),
            crate::scope::scope_wf(scope@),
            scope@.len() == old(scope)@.len(),
            forall|j: int| 1 <= j < old(scope)@.len() ==> scope@[j] == old(scope)@[j],
            scope@[0].parent == old(scope)@[0].parent,
            old(scope)@[0].binds.is_prefix_of(scope@[0].binds),
            forall|n: Seq<char>, v: ValueM|
                find_bind(old(scope)@[0].binds, n) == Some(v) ==> find_bind(scope@[0].binds, n)
                    == Some(v),
            forall|n: Seq<char>|
                (find_bind(old(scope)@[0].binds, n) is None && (forall|j: int|
                    0 <= j < i ==> n != items@[j].0@)) ==> find_bind(scope@[0].binds, n) is None,
            forall|j: int|
                0 <= j < i && find_bind(old(scope)@[0].binds, items@[j].0@) is None ==> find_bind(
                    scope@[0].binds,
                    items@[j].0@,
                ) == Some(ValueM::Function(Function::Builtin(items@[j].1))),
        decreases items.len() - i,
    {
        let ghost prev = scope@[0].binds;
        reg(scope, items[i].0, items[i].1);
        proof {
            crate::scope::lemma_prefix_trans(old(scope)@[0].binds, prev, scope@[0].binds);
            assert forall|n: Seq<char>|
                (find_bind(old(scope)@[0].binds, n) is None && (forall|j: int|
                    0 <= j < i + 1 ==> n != items@[j].0@)) implies find_bind(
                scope@[0].binds,
                n,
            ) is None by {
                assert(n != items@[i as int].0@);
                assert(find_bind(prev, n) is None);
            }
        }
        i = i + 1;
    }
}

/// Registers one builtin in the root frame; an already-taken name is left
/// as it is. Existing bindings stay where they are, a fresh name becomes
/// bound to the builtin, and every other absent name stays absent.
pub(crate) fn reg(scope: &mut Scope, name: &str, b: Builtin)
    requires
        crate::scope::scope_wf(old(scope)@),
        old(scope)@.len() >= 1,
    ensures
        crate::scope::scope_wf(final(scope)@),
        final(scope)@.len() == old(scope)@.len(),
        forall|i: int| 1 <= i < old(scope)@.len() ==> final(scope)@[i] == old(scope)@[i],
        final(scope)@[0].parent == old(scope)@[0].parent,
        old(scope)@[0].binds.is_prefix_of(final(scope)@[0].binds),
        forall|n: Seq<char>, v: ValueM|
            find_bind(old(scope)@[0].binds, n) == Some(v) ==> find_bind(
                final(scope)@[0].binds,
                n,
            ) == Some(v),
        forall|n: Seq<char>|
            find_bind(old(scope)@[0].binds, n) is None && n != name@ ==> find_bind(
                final(scope)@[0].binds,
                n,
            ) is None,
        find_bind(old(scope)@[0].binds, name@) is None ==> find_bind(
            final(scope)@[0].binds,
            name@,
        ) == Some(ValueM::Function(Function::Builtin(b))),
{
    let ghost before = scope@[0].binds;
    let outcome = scope.set_fn(0, name, b);
    proof {
        lemma_reg_effect(
            before,
            scope@[0].binds,
            name@,
            ValueM::Function(Function::Builtin(b)),
            outcome is Ok,
        );
    }
    match outcome {
        _ => (),
    }
}

/// What one registration does to a binding list: on success the pair is
/// appended, otherwise the list is unchanged; either way existing bindings
/// stay found, other absent names stay absent, and an appended fresh name
/// is found with its value.
pub(crate) proof fn lemma_reg_effect(
    before: Seq<(Seq<char>, ValueM)>,
    after: Seq<(Seq<char>, ValueM)>,
    name: Seq<char>,
    value: ValueM,
    appended: bool,
)
    requires
        appended ==> after == before.push((name, value)),
        appended <==> find_bind(before, name) is None,
        !appended ==> after == before,
    ensures
        before.is_prefix_of(after),
        forall|n: Seq<char>, v: ValueM|
            find_bind(before, n) == Some(v) ==> find_bind(after, n) == Some(v),
        forall|n: Seq<char>|
            find_bind(before, n) is None && n != name ==> find_bind(after, n) is None,
        find_bind(before, name) is None ==> find_bind(after, name) == Some(value),
{
    assert(before =~= after.subrange(0, before.len() as int));
    if appended {
        assert forall|n: Seq<char>|
            (find_bind(before, n) is None && n != name ==> find_bind(after, n) is None) && (
            find_bind(before, n) is Some ==> find_bind(after, n) == find_bind(before, n)) by {
            crate::scope::lemma_find_bind_push(before, name, value, n);
        }
        crate::scope::lemma_find_bind_push(before, name, value, name);
    }
}

/// Narrows an array value to the policies of its elements.
pub fn map_policy_array(array: Value) -> (r: Result<Vec<Policy>, Error>)
    ensures
        array@ matches ValueM::Array(els) ==> match as_policies(els) {
            Ok(ps) => r matches Ok(rps) && crate::domain::policies_view(rps@) == ps,
            Err(e) => r matches Err(re) && re@ == e,
        },
        !(array@ is Array) ==> (r matches Err(e) && e@ == ErrorM::NotArray(array@)),
{
    match array.into_array_elements() {
        Ok(els) => crate::runtime::policies_of(&els),
        Err(e) => Err(e),
    }
}

} // verus!

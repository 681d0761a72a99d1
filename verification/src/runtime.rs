//! The runtime value model and the evaluator.

use vstd::prelude::*;
use crate::ast::{
    assigns_size, esize, esize_list, lemma_assigns_size_bound, lemma_esize_list_bound,
    lemma_ssize_list_bound, ssize, ssize_list, Duration, Expr, Ident, Stmt,
};
use crate::bridge::{compile_policy, compiled_of, descriptor_script_pubkey, script_pubkey_of};
use crate::domain::{
    clone_bytes, descriptor_text, key_text, policy_text, DescriptorM, Descriptor, Miniscript,
    Network, Policy, PolicyM, PubKey, PubKeyM,
};
use crate::error::{Error, ErrorM};
use crate::function::Function;
use crate::scope::{find_bind, lookup, scope_wf, FrameM, Scope};

verus! {

broadcast use vstd::std_specs::vec::group_vec_axioms;

/// A runtime value: what gets passed around as function arguments, returned
/// from functions, and assigned to variables. A value is always exactly one
/// kind; conversions between kinds are explicit and fallible.
#[derive(Debug, PartialEq)]
pub enum Value {
    /// A public key.
    PubKey(PubKey),
    /// Raw hash bytes.
    Hash(Vec<u8>),
    /// An unsigned integer.
    Number(usize),
    /// A date-time, carried as opaque text.
    DateTime(String),
    /// A duration, carried as opaque text.
    Duration(Duration),
    /// A spending policy.
    Policy(Policy),
    /// A probability-tagged policy: weight plus policy.
    WithProb(usize, Policy),
    /// A compiled-script object.
    Miniscript(Miniscript),
    /// An output descriptor.
    Descriptor(Descriptor),
    /// A raw script, as bytes.
    Script(Vec<u8>),
    /// An address, as text.
    Address(String),
    /// A callable.
    Function(Function),
    /// An ordered, heterogeneous sequence of values.
    Array(Array),
    /// A network tag.
    Network(Network),
}

/// The array value kind.
#[derive(Debug, PartialEq)]
pub struct Array(pub Vec<Value>);

/// Mathematical model of a runtime value.
pub enum ValueM {
    PubKey(PubKeyM),
    Hash(Seq<u8>),
    Number(int),
    DateTime(Seq<char>),
    Duration(Seq<char>),
    Policy(PolicyM),
    WithProb(int, PolicyM),
    Miniscript(Seq<char>),
    Descriptor(DescriptorM),
    Script(Seq<u8>),
    Address(Seq<char>),
    Function(Function),
    Array(Seq<ValueM>),
    Network(Network),
}

/// Model of a sequence of values, pointwise.
pub open spec fn values_view(vs: Seq<Value>) -> Seq<ValueM>
    decreases vs,
{
    if vs.len() == 0 {
        Seq::empty()
    } else {
        seq![value_view(vs[0])] + values_view(vs.subrange(1, vs.len() as int))
    }
}

/// Model of a runtime value.
pub open spec fn value_view(v: Value) -> ValueM
    decreases v,
{
    match v {
        Value::PubKey(k) => ValueM::PubKey(k@),
        Value::Hash(h) => ValueM::Hash(h@),
        Value::Number(n) => ValueM::Number(n as int),
        Value::DateTime(s) => ValueM::DateTime(s@),
        Value::Duration(d) => ValueM::Duration(d.0@),
        Value::Policy(p) => ValueM::Policy(p@),
        Value::WithProb(w, p) => ValueM::WithProb(w as int, p@),
        Value::Miniscript(m) => ValueM::Miniscript(m@),
        Value::Descriptor(d) => ValueM::Descriptor(d@),
        Value::Script(b) => ValueM::Script(b@),
        Value::Address(a) => ValueM::Address(a@),
        Value::Function(f) => ValueM::Function(f),
        Value::Array(a) => ValueM::Array(values_view(a.0@)),
        Value::Network(n) => ValueM::Network(n),
    }
}

impl View for Value {
    type V = ValueM;

    open spec fn view(&self) -> ValueM {
        value_view(*self)
    }
}

impl View for Array {
    type V = Seq<ValueM>;

    open spec fn view(&self) -> Seq<ValueM> {
        values_view(self.0@)
    }
}

/// The elements of a value-sequence model, pointwise.
pub proof fn lemma_values_view(vs: Seq<Value>)
    ensures
        values_view(vs).len() == vs.len(),
        forall|i: int| 0 <= i < vs.len() ==> values_view(vs)[i] == value_view(vs[i]),
    decreases vs,
{
    if vs.len() > 0 {
        lemma_values_view(vs.subrange(1, vs.len() as int));
        assert forall|i: int| 0 <= i < vs.len() implies values_view(vs)[i] == value_view(
            vs[i],
        ) by {
            if i > 0 {
                assert(vs.subrange(1, vs.len() as int)[i - 1] == vs[i]);
            }
        }
    }
}

impl Value {
    /// A fresh deep copy of this value. Closures inside it share their
    /// parameter list and body with the original.
    pub fn duplicate(&self) -> (r: Value)
        ensures
            r@ == self@,
        decreases *self, 0nat,
    {
        match self {
            Value::PubKey(k) => Value::PubKey(k.duplicate()),
            Value::Hash(h) => Value::Hash(clone_bytes(h)),
            Value::Number(n) => Value::Number(*n),
            Value::DateTime(s) => Value::DateTime(s.clone()),
            Value::Duration(d) => Value::Duration(Duration(d.0.clone())),
            Value::Policy(p) => Value::Policy(p.duplicate()),
            Value::WithProb(w, p) => Value::WithProb(*w, p.duplicate()),
            Value::Miniscript(m) => Value::Miniscript(m.duplicate()),
            Value::Descriptor(d) => Value::Descriptor(d.duplicate()),
            Value::Script(b) => Value::Script(clone_bytes(b)),
            Value::Address(a) => Value::Address(a.clone()),
            Value::Function(f) => Value::Function(f.duplicate()),
            Value::Array(a) => Value::Array(Array(duplicate_values(&a.0))),
            Value::Network(n) => Value::Network(*n),
        }
    }

    /// Builds an array value from its elements.
    pub fn array(els: Vec<Value>) -> (r: Value)
        ensures
            r@ == ValueM::Array(values_view(els@)),
    {
        Value::Array(Array(els))
    }
}

/// What standing in for a policy yields for a value: a policy is accepted
/// directly, and an array stands for the conjunction of all its elements
/// (a threshold over every element); anything else is rejected.
pub open spec fn as_policy(v: ValueM) -> Result<PolicyM, ErrorM>
    decreases v, 1nat,
{
    match v {
        ValueM::Policy(p) => Ok(p),
        ValueM::Array(els) => match as_policies(els) {
            Ok(ps) => Ok(PolicyM::Threshold(els.len() as int, ps)),
            Err(e) => Err(e),
        },
        _ => Err(ErrorM::NotPolicyLike(v)),
    }
}

/// Policy conversion of every element, left to right; the first failure
/// wins.
pub open spec fn as_policies(vs: Seq<ValueM>) -> Result<Seq<PolicyM>, ErrorM>
    decreases vs, 0nat,
{
    if vs.len() == 0 {
        Ok(Seq::empty())
    } else {
        match as_policy(vs[0]) {
            Err(e) => Err(e),
            Ok(p) => match as_policies(vs.subrange(1, vs.len() as int)) {
                Ok(ps) => Ok(seq![p] + ps),
                Err(e) => Err(e),
            },
        }
    }
}

/// A successful policy-element conversion keeps the length.
pub proof fn lemma_as_policies_len(vs: Seq<ValueM>)
    ensures
        as_policies(vs) matches Ok(ps) ==> ps.len() == vs.len(),
    decreases vs,
{
    if vs.len() > 0 {
        lemma_as_policies_len(vs.subrange(1, vs.len() as int));
    }
}

/// The descriptor a value widens to, where it widens at all: a descriptor
/// directly; a compiled script wrapped as segwit-v0; a policy compiled and
/// then wrapped; a key wrapped as pay-to-witness-pubkey-hash.
pub open spec fn as_descriptor_ok(v: ValueM) -> Option<DescriptorM> {
    match v {
        ValueM::Descriptor(d) => Some(d),
        ValueM::Miniscript(t) => Some(DescriptorM::Wsh(t)),
        ValueM::Policy(p) => match compiled_of(policy_text(p)) {
            Some(t) => Some(DescriptorM::Wsh(t)),
            None => None,
        },
        ValueM::PubKey(k) => Some(DescriptorM::Wpkh(key_text(k))),
        _ => None,
    }
}

/// The worker behind policy narrowing.
fn policy_of(v: &Value) -> (r: Result<Policy, Error>)
    ensures
        r matches Ok(p) ==> as_policy(v@) == Ok::<PolicyM, ErrorM>(p@),
        r matches Err(e) ==> as_policy(v@) == Err::<PolicyM, ErrorM>(e@),
    decreases *v, 1nat,
{
    match v {
        Value::Policy(p) => Ok(p.duplicate()),
        Value::Array(arr) => {
            match policies_of(&arr.0) {
                Ok(ps) => {
                    proof {
                        lemma_as_policies_len(values_view(arr.0@));
                        crate::domain::lemma_policies_view(ps@);
                    }
                    Ok(Policy::Threshold(ps.len(), ps))
                },
                Err(e) => Err(e),
            }
        },
        _ => Err(Error::NotPolicyLike(Box::new(v.duplicate()))),
    }
}

/// Policy narrowing of every element of a list, left to right.
#[verifier::loop_isolation(false)]
pub fn policies_of(vs: &Vec<Value>) -> (r: Result<Vec<Policy>, Error>)
    ensures
        r matches Ok(ps) ==> as_policies(values_view(vs@)) == Ok::<Seq<PolicyM>, ErrorM>(
            crate::domain::policies_view(ps@),
        ),
        r matches Err(e) ==> as_policies(values_view(vs@)) == Err::<Seq<PolicyM>, ErrorM>(e@),
    decreases *vs, 0nat,
{
    let n = vs.len();
    let mut out: Vec<Policy> = Vec::new();
    let ghost whole = values_view(vs@);
    proof {
        lemma_values_view(vs@);
        assert(whole.subrange(0, n as int) =~= whole);
        assert(crate::domain::policies_view(Seq::<Policy>::empty()) =~= Seq::<PolicyM>::empty());
        if as_policies(whole) is Ok {
            assert(Seq::<PolicyM>::empty() + as_policies(whole)->Ok_0 =~= as_policies(
                whole,
            )->Ok_0);
        }
    }
    let mut i: usize = 0;
    while i < n
        invariant
            i <= n,
            out@.len() == i as int,
            whole == values_view(vs@),
            ({
                let tail = whole.subrange(i as int, n as int);
                match as_policies(tail) {
                    Ok(tailps) => as_policies(whole) == Ok::<Seq<PolicyM>, ErrorM>(
                        crate::domain::policies_view(out@) + tailps,
                    ),
                    Err(e) => as_policies(whole) == Err::<Seq<PolicyM>, ErrorM>(e),
                }
            }),
        decreases n - i,
    {
        proof {
            lemma_suffix_unfold(whole, i as int);
        }
        match policy_of(&vs[i]) {
            Ok(p) => {
                proof {
                    let ghost oldout = out@;
                    crate::domain::lemma_policies_view(oldout.push(p));
                    crate::domain::lemma_policies_view(oldout);
                }
                let ghost oldout = out@;
                out.push(p);
                proof {
                    assert(out@ =~= oldout.push(p));
                    assert(crate::domain::policies_view(out@) =~= crate::domain::policies_view(
                        oldout,
                    ).push(p@));
                    let tail = whole.subrange(i as int, n as int);
                    let tail2 = whole.subrange(i + 1, n as int);
                    if as_policies(tail2) is Ok {
                        assert(crate::domain::policies_view(oldout).push(p@) + as_policies(
                            tail2,
                        )->Ok_0 =~= crate::domain::policies_view(oldout) + (seq![p@] + as_policies(
                            tail2,
                        )->Ok_0));
                    }
                }
            },
            Err(e) => {
                return Err(e);
            },
        }
        i = i + 1;
    }
    proof {
        assert(whole.subrange(n as int, n as int) =~= Seq::<ValueM>::empty());
        assert(as_policies(Seq::<ValueM>::empty()) == Ok::<Seq<PolicyM>, ErrorM>(Seq::empty()));
        assert(crate::domain::policies_view(out@) + Seq::<PolicyM>::empty()
            =~= crate::domain::policies_view(out@));
    }
    Ok(out)
}

/// One cons-step of the element-conversion spec, at a suffix boundary.
proof fn lemma_suffix_unfold(whole: Seq<ValueM>, i: int)
    requires
        0 <= i < whole.len(),
    ensures
        as_policies(whole.subrange(i, whole.len() as int)) == (match as_policy(whole[i]) {
            Err(e) => Err::<Seq<PolicyM>, ErrorM>(e),
            Ok(p) => match as_policies(whole.subrange(i + 1, whole.len() as int)) {
                Ok(ps) => Ok(seq![p] + ps),
                Err(e) => Err(e),
            },
        }),
{
    let tail = whole.subrange(i, whole.len() as int);
    assert(tail[0] == whole[i]);
    assert(tail.subrange(1, tail.len() as int) =~= whole.subrange(i + 1, whole.len() as int));
}

impl Value {
    /// Whether this value is an array.
    pub fn is_array(&self) -> (r: bool)
        ensures
            r == (self@ is Array),
    {
        matches!(self, Value::Array(_))
    }

    /// Whether this value can stand where a compiled script is required.
    pub fn is_miniscript_like(&self) -> (r: bool)
        ensures
            r == (self@ is Miniscript || self@ is Policy),
    {
        matches!(self, Value::Miniscript(_) | Value::Policy(_))
    }

    /// Whether this value is a raw script.
    pub fn is_script_like(&self) -> (r: bool)
        ensures
            r == (self@ is Script),
    {
        matches!(self, Value::Script(_))
    }

    /// Narrows this value to a policy, per `as_policy`.
    pub fn into_policy(self) -> (r: Result<Policy, Error>)
        ensures
            r matches Ok(p) ==> as_policy(self@) == Ok::<PolicyM, ErrorM>(p@),
            r matches Err(e) ==> as_policy(self@) == Err::<PolicyM, ErrorM>(e@),
    {
        policy_of(&self)
    }

    /// Narrows this value to a number.
    pub fn into_usize(self) -> (r: Result<usize, Error>)
        ensures
            r matches Ok(n) ==> self@ == ValueM::Number(n as int),
            r matches Err(e) ==> !(self@ is Number) && e@ == ErrorM::NotNumber(self@),
    {
        match self {
            Value::Number(n) => Ok(n),
            v => Err(Error::NotNumber(Box::new(v))),
        }
    }

    /// Narrows this value to a public key.
    pub fn into_key(self) -> (r: Result<PubKey, Error>)
        ensures
            r matches Ok(k) ==> self@ == ValueM::PubKey(k@),
            r matches Err(e) ==> !(self@ is PubKey) && e@ == ErrorM::NotPubKey(self@),
    {
        match self {
            Value::PubKey(k) => Ok(k),
            v => Err(Error::NotPubKey(Box::new(v))),
        }
    }

    /// Narrows this value to a compiled script: accepted directly, or
    /// compiled from a policy by the external compiler.
    pub fn into_miniscript(self) -> (r: Result<Miniscript, Error>)
        ensures
            self@ matches ValueM::Miniscript(t) ==> r matches Ok(m) && m@ == t,
            self@ matches ValueM::Policy(p) ==> match compiled_of(policy_text(p)) {
                Some(t) => r matches Ok(m) && m@ == t,
                None => r matches Err(e) && e@ is CompilerError,
            },
            !(self@ is Miniscript) && !(self@ is Policy) ==> (r matches Err(e) && e@
                == ErrorM::NotMiniscriptLike(self@)),
    {
        match self {
            Value::Miniscript(m) => Ok(m),
            Value::Policy(p) => {
                let text = p.render();
                match compile_policy(text.as_str()) {
                    Ok(t) => Ok(Miniscript(t)),
                    Err(msg) => Err(Error::CompilerError(msg)),
                }
            },
            v => Err(Error::NotMiniscriptLike(Box::new(v))),
        }
    }

    /// Widens this value to a descriptor, per `as_descriptor_ok`; the
    /// error names the failing conversion.
    pub fn into_desc(self) -> (r: Result<Descriptor, Error>)
        ensures
            as_descriptor_ok(self@) matches Some(d) ==> r matches Ok(rd) && rd@ == d,
            as_descriptor_ok(self@) is None && (self@ is Policy) ==> (r matches Err(e) && e@
                is CompilerError),
            as_descriptor_ok(self@) is None && !(self@ is Policy) ==> (r matches Err(e) && e@
                == ErrorM::NotDescriptorLike(self@)),
    {
        match self {
            Value::Descriptor(d) => Ok(d),
            Value::Miniscript(m) => Ok(Descriptor::Wsh(m.0)),
            Value::Policy(p) => {
                let text = p.render();
                match compile_policy(text.as_str()) {
                    Ok(t) => Ok(Descriptor::Wsh(t)),
                    Err(msg) => Err(Error::CompilerError(msg)),
                }
            },
            Value::PubKey(k) => Ok(Descriptor::Wpkh(k.render())),
            v => Err(Error::NotDescriptorLike(Box::new(v))),
        }
    }

    /// The scriptPubKey of this value seen as a descriptor, computed by
    /// the external domain library at derivation index 0.
    pub fn into_script_pubkey(self) -> (r: Result<Vec<u8>, Error>)
        ensures
            as_descriptor_ok(self@) matches Some(d) ==> match script_pubkey_of(
                descriptor_text(d),
            ) {
                Some(b) => r matches Ok(rb) && rb@ == b,
                None => r matches Err(e) && e@ is DescriptorError,
            },
            as_descriptor_ok(self@) is None ==> r is Err,
    {
        let desc = match self.into_desc() {
            Ok(d) => d,
            Err(e) => {
                return Err(e);
            },
        };
        let text = desc.render();
        match descriptor_script_pubkey(text.as_str()) {
            Ok(b) => Ok(b),
            Err(msg) => Err(Error::DescriptorError(msg)),
        }
    }

    /// Narrows this value to the elements of an array.
    pub fn into_array_elements(self) -> (r: Result<Vec<Value>, Error>)
        ensures
            r matches Ok(els) ==> self@ == ValueM::Array(values_view(els@)),
            r matches Err(e) ==> !(self@ is Array) && e@ == ErrorM::NotArray(self@),
    {
        match self {
            Value::Array(a) => Ok(a.0),
            v => Err(Error::NotArray(Box::new(v))),
        }
    }

    /// Narrows this value to raw bytes.
    pub fn into_bytes(self) -> (r: Result<Vec<u8>, Error>)
        ensures
            r matches Ok(b) ==> self@ == ValueM::Hash(b@),
            r matches Err(e) ==> !(self@ is Hash) && e@ == ErrorM::NotHash(self@),
    {
        match self {
            Value::Hash(b) => Ok(b),
            v => Err(Error::NotHash(Box::new(v))),
        }
    }

    /// Narrows this value to a network tag.
    pub fn into_network(self) -> (r: Result<Network, Error>)
        ensures
            r matches Ok(n) ==> self@ == ValueM::Network(n),
            r matches Err(e) ==> !(self@ is Network) && e@ == ErrorM::NotNetwork(self@),
    {
        match self {
            Value::Network(n) => Ok(n),
            v => Err(Error::NotNetwork(Box::new(v))),
        }
    }

    /// Reads this value as a boolean: zero is false, any other number is
    /// true. The boolean literals of the root scope are numbers.
    pub fn into_bool(self) -> (r: Result<bool, Error>)
        ensures
            self@ matches ValueM::Number(n) ==> r matches Ok(b) && b == (n != 0),
            !(self@ is Number) ==> (r matches Err(e) && e@ == ErrorM::NotNumber(self@)),
    {
        match self {
            Value::Number(n) => Ok(n != 0),
            v => Err(Error::NotNumber(Box::new(v))),
        }
    }
}

/// A fresh deep copy of the elements of a value list from `from` on.
#[verifier::loop_isolation(false)]
pub fn duplicate_tail(vs: &Vec<Value>, from: usize) -> (r: Vec<Value>)
    requires
        from <= vs@.len(),
    ensures
        values_view(r@) == values_view(vs@).subrange(from as int, vs@.len() as int),
        r@.len() == vs@.len() - from as int,
{
    proof {
        lemma_values_view(vs@);
    }
    let mut out: Vec<Value> = Vec::new();
    let mut i: usize = from;
    while i < vs.len()
        invariant
            from <= i <= vs.len(),
            out@.len() == i - from,
            forall|j: int| 0 <= j < out@.len() ==> value_view(out@[j]) == value_view(
                vs@[from + j],
            ),
        decreases vs.len() - i,
    {
        let c = vs[i].duplicate();
        out.push(c);
        i = i + 1;
    }
    proof {
        lemma_values_view(out@);
        lemma_values_view(vs@);
        assert(values_view(out@) =~= values_view(vs@).subrange(from as int, vs@.len() as int));
    }
    out
}

/// A fresh deep copy of a value list.
#[verifier::loop_isolation(false)]
pub fn duplicate_values(vs: &Vec<Value>) -> (r: Vec<Value>)
    ensures
        values_view(r@) == values_view(vs@),
        r@.len() == vs@.len(),
    decreases *vs, 1nat,
{
    let mut out: Vec<Value> = Vec::new();
    let mut i: usize = 0;
    while i < vs.len()
        invariant
            i <= vs.len(),
            out@.len() == i as int,
            forall|j: int| 0 <= j < i ==> value_view(out@[j]) == value_view(vs@[j]),
        decreases vs.len() - i,
    {
        let c = vs[i].duplicate();
        out.push(c);
        i = i + 1;
    }
    proof {
        lemma_values_view(out@);
        lemma_values_view(vs@);
        assert(values_view(out@) =~= values_view(vs@));
    }
    out
}

/// Every frame that existed before still stands unchanged; new frames may
/// have been appended.
pub open spec fn frames_preserved(o: Seq<FrameM>, n: Seq<FrameM>) -> bool {
    n.len() >= o.len() && (forall|i: int| 0 <= i < o.len() ==> n[i] == o[i])
}

/// Every old frame but `sc` stands unchanged, and frame `sc` keeps its
/// parent: statements write local bindings only.
pub open spec fn frames_preserved_except(o: Seq<FrameM>, n: Seq<FrameM>, sc: int) -> bool {
    n.len() >= o.len() && (forall|i: int| 0 <= i < o.len() && i != sc ==> n[i] == o[i]) && (0 <= sc
        < o.len() ==> n[sc].parent == o[sc].parent && o[sc].binds.is_prefix_of(n[sc].binds))
}

/// A lookup that starts below the old frame count sees only old frames, so
/// appending frames never changes it.
pub proof fn lemma_lookup_stable(o: Seq<FrameM>, n: Seq<FrameM>, sc: int, name: Seq<char>)
    requires
        scope_wf(o),
        scope_wf(n),
        frames_preserved(o, n),
        0 <= sc < o.len(),
    ensures
        lookup(n, sc, name) == lookup(o, sc, name),
    decreases sc,
{
    assert(n[sc] == o[sc]);
    match o[sc].parent {
        Some(p) => {
            lemma_lookup_stable(o, n, p, name);
        },
        None => {},
    }
}

/// Names of a parameter list, pointwise.
pub open spec fn idents_view(ps: Seq<Ident>) -> Seq<Seq<char>>
    decreases ps,
{
    if ps.len() == 0 {
        Seq::empty()
    } else {
        seq![ps[0].0@] + idents_view(ps.subrange(1, ps.len() as int))
    }
}

/// The entries of a parameter-name view, pointwise.
pub proof fn lemma_idents_view(ps: Seq<Ident>)
    ensures
        idents_view(ps).len() == ps.len(),
        forall|i: int| 0 <= i < ps.len() ==> idents_view(ps)[i] == ps[i].0@,
    decreases ps,
{
    if ps.len() > 0 {
        lemma_idents_view(ps.subrange(1, ps.len() as int));
        assert forall|i: int| 0 <= i < ps.len() implies idents_view(ps)[i] == ps[i].0@ by {
            if i > 0 {
                assert(ps.subrange(1, ps.len() as int)[i - 1] == ps[i]);
            }
        }
    }
}

/// The bindings of a call activation record: each formal parameter, in
/// order, bound to the corresponding argument.
pub open spec fn zip_binds(ns: Seq<Seq<char>>, vs: Seq<ValueM>) -> Seq<(Seq<char>, ValueM)> {
    Seq::new(if ns.len() <= vs.len() {
        ns.len()
    } else {
        vs.len()
    }, |i: int| (ns[i], vs[i]))
}

/// No name repeats.
pub open spec fn distinct_names(ns: Seq<Seq<char>>) -> bool {
    forall|i: int, j: int| 0 <= i < j < ns.len() ==> ns[i] != ns[j]
}

/// How an error coming out of a call is reported: wrapped with the called
/// name to preserve a call trail.
pub open spec fn wrap_call(name: Seq<char>, r: Result<ValueM, ErrorM>) -> Result<ValueM, ErrorM> {
    match r {
        Ok(v) => Ok(v),
        Err(e) => Err(ErrorM::CallError(name, Box::new(e))),
    }
}

/// What array indexing yields: the `i`-th element exactly when
/// `0 <= i < len`, the bounds error otherwise.
pub open spec fn array_access_spec(a: ValueM, i: ValueM) -> Result<ValueM, ErrorM> {
    match a {
        ValueM::Array(els) => match i {
            ValueM::Number(n) => if 0 <= n < els.len() {
                Ok(els[n])
            } else {
                Err(ErrorM::ArrayIndexOutOfRange)
            },
            v => Err(ErrorM::NotNumber(v)),
        },
        v => Err(ErrorM::NotArray(v)),
    }
}

/// What a public-key literal parses to: the text without a trailing
/// wildcard step as the fixed part, the wildcard mark, and the external
/// parser's classification; an unparsable text is rejected.
pub open spec fn key_parse_spec(s: Seq<char>) -> Result<PubKeyM, ErrorM> {
    let wild = s.len() >= 2 && s[s.len() - 2] == '/' && s[s.len() - 1] == '*';
    let base = if wild {
        s.subrange(0, s.len() - 2)
    } else {
        s
    };
    match crate::bridge::key_class_of(s) {
        Some(x) => Ok(PubKeyM { base, wildcard: wild, xpub: x }),
        None => Err(ErrorM::InvalidPubKey(s)),
    }
}

/// Parses a public-key literal.
fn parse_key(s: &str) -> (r: Result<PubKey, Error>)
    ensures
        r matches Ok(k) ==> key_parse_spec(s@) == Ok::<PubKeyM, ErrorM>(k@),
        r matches Err(e) ==> key_parse_spec(s@) == Err::<PubKeyM, ErrorM>(e@),
{
    let n = s.unicode_len();
    let wild = n >= 2 && s.get_char(n - 2) == '/' && s.get_char(n - 1) == '*';
    let xpub = match crate::bridge::key_class(s) {
        Some(x) => x,
        None => {
            return Err(Error::InvalidPubKey(s.to_owned()));
        },
    };
    let base = if wild {
        s.substring_char(0, n - 2).to_owned()
    } else {
        s.to_owned()
    };
    Ok(PubKey { base, wildcard: wild, xpub })
}

/// Indexes into an array value, by value: the element moves out.
fn array_access(arr: Value, index: Value) -> (r: Result<Value, Error>)
    ensures
        r matches Ok(v) ==> array_access_spec(arr@, index@) == Ok::<ValueM, ErrorM>(v@),
        r matches Err(e) ==> array_access_spec(arr@, index@) == Err::<ValueM, ErrorM>(e@),
{
    let ghost am = arr@;
    let mut els = match arr.into_array_elements() {
        Ok(els) => els,
        Err(e) => {
            return Err(e);
        },
    };
    proof {
        lemma_values_view(els@);
    }
    let idx = match index.into_usize() {
        Ok(n) => n,
        Err(e) => {
            return Err(e);
        },
    };
    if idx < els.len() {
        Ok(els.remove(idx))
    } else {
        Err(Error::ArrayIndexOutOfRange)
    }
}

/// Whether every expression in a list is a number literal.
pub open spec fn all_number_atoms(es: Seq<Expr>) -> bool {
    forall|i: int| 0 <= i < es.len() ==> (#[trigger] es[i]) is Number
}

/// The values a list of number literals evaluates to.
pub open spec fn number_atom_values(es: Seq<Expr>) -> Seq<ValueM> {
    Seq::new(es.len(), |i: int| ValueM::Number(es[i]->Number_0 as int))
}

/// The call-depth ceiling of one evaluation session. Recursion depth is
/// otherwise bounded only by expression nesting, so the evaluator charges
/// one unit per function invocation and fails with the recursion-limit
/// error when the ceiling is reached.
pub const MAX_CALL_DEPTH: u64 = 64;

/// Evaluates an expression to a value against frame `sc`. Expressions have
/// no side effects on existing frames: evaluation may append activation
/// and block frames, and every frame that already existed stands
/// unchanged.
#[verifier::loop_isolation(false)]
pub fn eval_expr(scope: &mut Scope, sc: usize, e: &Expr, fuel: u64) -> (r: Result<Value, Error>)
    requires
        scope_wf(old(scope)@),
        sc < old(scope)@.len(),
    ensures
        scope_wf(final(scope)@),
        frames_preserved(old(scope)@, final(scope)@),
        (*e) matches Expr::Number(n) ==> (r matches Ok(v) && v@ == ValueM::Number(n as int)),
        (*e) matches Expr::DateTime(s) ==> (r matches Ok(v) && v@ == ValueM::DateTime(s@)),
        (*e) matches Expr::Duration(d) ==> (r matches Ok(v) && v@ == ValueM::Duration(d.0@)),
        (*e) matches Expr::Hash(s) ==> (if crate::textfmt::hex_ok(s@) {
            r matches Ok(v) && v@ == ValueM::Hash(crate::textfmt::hex_val(s@))
        } else {
            r matches Err(err) && err@ == ErrorM::InvalidHex(s@)
        }),
        (*e) matches Expr::PubKey(s) ==> (match key_parse_spec(s@) {
            Ok(k) => r matches Ok(v) && v@ == ValueM::PubKey(k),
            Err(err) => r matches Err(re) && re@ == err,
        }),
        (*e) matches Expr::Ident(id) ==> (match lookup(old(scope)@, sc as int, id.0@) {
            Some(v) => r matches Ok(rv) && rv@ == v,
            None => r matches Err(err) && err@ == ErrorM::VarNotFound(id.0@),
        }),
        (*e) matches Expr::Array(es) ==> (r matches Ok(v) ==> v@ is Array && v@->Array_0.len()
            == es@.len()),
        (*e) matches Expr::Array(es) ==> (all_number_atoms(es@) ==> (r matches Ok(v) && v@
            == ValueM::Array(number_atom_values(es@)))),
        (*e) matches Expr::ArrayAccess(a, ix) ==> (((*a) is Array && all_number_atoms(
            (*a)->Array_0@,
        ) && (*ix) is Number) ==> (match array_access_spec(
            ValueM::Array(number_atom_values((*a)->Array_0@)),
            ValueM::Number((*ix)->Number_0 as int),
        ) {
            Ok(v) => r matches Ok(rv) && rv@ == v,
            Err(err) => r matches Err(re) && re@ == err,
        })),
        (*e) matches Expr::Block(ss, ret_) ==> ((ss@.len() == 0 && ret_ is None && !(match lookup(
            old(scope)@,
            sc as int,
            "main"@,
        ) {
            Some(v) => v is Function,
            None => false,
        })) ==> (r matches Err(err) && err@ == ErrorM::NoReturnValue)),
        r matches Ok(v) ==> ((*e) matches Expr::Or(es) && es@.len() == 2 && fuel > 0 && lookup(
            old(scope)@,
            sc as int,
            "or"@,
        ) == Some(ValueM::Function(Function::Builtin(crate::function::Builtin::Or)))
            ==> exists|vals: Seq<ValueM>|
            #![auto]
            vals.len() == 2 && crate::stdlib::miniscript::builtin_or(vals) == Ok::<ValueM, ErrorM>(
                v@,
            )),
        r matches Ok(v) ==> ((*e) matches Expr::And(es) && es@.len() == 2 && fuel > 0 && lookup(
            old(scope)@,
            sc as int,
            "and"@,
        ) == Some(ValueM::Function(Function::Builtin(crate::function::Builtin::And)))
            ==> exists|vals: Seq<ValueM>|
            #![auto]
            vals.len() == 2 && crate::stdlib::miniscript::builtin_and(vals) == Ok::<ValueM, ErrorM>(
                v@,
            )),
        r matches Ok(v) ==> ((*e) is Or && (*e)->Or_0@.len() != 2 && fuel > 0 && lookup(
            old(scope)@,
            sc as int,
            "thresh"@,
        ) == Some(ValueM::Function(Function::Builtin(crate::function::Builtin::Thresh)))
            ==> exists|vals: Seq<ValueM>|
            #![auto]
            vals.len() == (*e)->Or_0@.len() && crate::stdlib::miniscript::builtin_thresh(
                seq![ValueM::Number(1)] + vals,
            ) == Ok::<ValueM, ErrorM>(v@)),
        r matches Ok(v) ==> ((*e) is And && (*e)->And_0@.len() != 2 && fuel > 0 && lookup(
            old(scope)@,
            sc as int,
            "thresh"@,
        ) == Some(ValueM::Function(Function::Builtin(crate::function::Builtin::Thresh)))
            ==> exists|vals: Seq<ValueM>|
            #![auto]
            vals.len() == (*e)->And_0@.len() && crate::stdlib::miniscript::builtin_thresh(
                seq![ValueM::Number((*e)->And_0@.len() as int)] + vals,
            ) == Ok::<ValueM, ErrorM>(v@)),
    decreases fuel, esize(*e), 2nat,
{
    match e {
        Expr::Ident(id) => {
            match scope.get(sc, id) {
                Some(v) => Ok(v),
                None => Err(Error::VarNotFound(id.duplicate())),
            }
        },
        Expr::Call(id, es) => {
            proof {
                assert(esize(*e) == 1 + esize_list(es@));
            }
            call(scope, sc, id, es, fuel)
        },
        Expr::Or(es) => {
            proof {
                assert(esize(*e) == 1 + esize_list(es@));
            }
            eval_andor(scope, sc, false, 1, es, fuel)
        },
        Expr::And(es) => {
            proof {
                assert(esize(*e) == 1 + esize_list(es@));
            }
            eval_andor(scope, sc, true, es.len(), es, fuel)
        },
        Expr::Thresh(t, ps) => {
            let id = Ident("thresh".to_owned());
            let f = match resolve_function(scope, sc, &id) {
                Ok(f) => f,
                Err(e) => {
                    return Err(e);
                },
            };
            let tv = match eval_expr(scope, sc, t, fuel) {
                Ok(v) => v,
                Err(e) => {
                    return Err(e);
                },
            };
            let pv = match eval_expr(scope, sc, ps, fuel) {
                Ok(v) => v,
                Err(e) => {
                    return Err(e);
                },
            };
            let mut vals: Vec<Value> = Vec::new();
            vals.push(tv);
            vals.push(pv);
            invoke(scope, &f, &id, vals, fuel)
        },
        Expr::WithProb(p, x) => {
            let id = Ident("prob".to_owned());
            let f = match resolve_function(scope, sc, &id) {
                Ok(f) => f,
                Err(e) => {
                    return Err(e);
                },
            };
            let pv = match eval_expr(scope, sc, p, fuel) {
                Ok(v) => v,
                Err(e) => {
                    return Err(e);
                },
            };
            let xv = match eval_expr(scope, sc, x, fuel) {
                Ok(v) => v,
                Err(e) => {
                    return Err(e);
                },
            };
            let mut vals: Vec<Value> = Vec::new();
            vals.push(pv);
            vals.push(xv);
            invoke(scope, &f, &id, vals, fuel)
        },
        Expr::Array(es) => {
            proof {
                assert(esize(*e) == 1 + esize_list(es@));
            }
            match eval_exprs(scope, sc, es, fuel) {
                Ok(vals) => {
                    proof {
                        lemma_values_view(vals@);
                    }
                    Ok(Value::Array(Array(vals)))
                },
                Err(e) => {
                    return Err(e);
                },
            }
        },
        Expr::ArrayAccess(a, ix) => {
            let av = match eval_expr(scope, sc, a, fuel) {
                Ok(v) => v,
                Err(e) => {
                    return Err(e);
                },
            };
            let iv = match eval_expr(scope, sc, ix, fuel) {
                Ok(v) => v,
                Err(e) => {
                    return Err(e);
                },
            };
            array_access(av, iv)
        },
        Expr::ChildDerive(parent, path, wild) => {
            proof {
                assert(esize(*e) == 1 + esize(**parent) + esize_list(path@));
            }
            eval_child_derive(scope, sc, parent, path, *wild, fuel)
        },
        Expr::Block(stmts, ret) => {
            proof {
                assert(esize(*e) == 1 + ssize_list(stmts@) + (match ret {
                    Some(r_) => esize(**r_),
                    None => 0nat,
                }));
            }
            let child = scope.child(sc);
            let ghost after_child = scope@;
            match exec_stmts(scope, child, stmts, fuel) {
                Ok(()) => {
                    proof {
                        if stmts@.len() == 0 && ret is None {
                            lemma_lookup_stable(old(scope)@, after_child, sc as int, "main"@);
                            assert(find_bind(after_child[child as int].binds, "main"@) is None);
                            assert(lookup(after_child, child as int, "main"@) == lookup(
                                after_child,
                                sc as int,
                                "main"@,
                            ));
                        }
                    }
                    block_epilogue(scope, child, ret, fuel)
                },
                Err(e) => Err(e),
            }
        },
        Expr::PubKey(s) => {
            match parse_key(s.as_str()) {
                Ok(k) => Ok(Value::PubKey(k)),
                Err(e) => Err(e),
            }
        },
        Expr::Hash(s) => {
            match crate::textfmt::parse_hex(s.as_str()) {
                Some(b) => Ok(Value::Hash(b)),
                None => Err(Error::InvalidHex(s.clone())),
            }
        },
        Expr::Number(n) => Ok(Value::Number(*n)),
        Expr::Duration(d) => Ok(Value::Duration(Duration(d.0.clone()))),
        Expr::DateTime(s) => Ok(Value::DateTime(s.clone())),
    }
}

/// Evaluates a list of expressions, left to right, against one frame.
#[verifier::loop_isolation(false)]
pub fn eval_exprs(scope: &mut Scope, sc: usize, es: &Vec<Expr>, fuel: u64) -> (r: Result<
    Vec<Value>,
    Error,
>)
    requires
        scope_wf(old(scope)@),
        sc < old(scope)@.len(),
    ensures
        scope_wf(final(scope)@),
        frames_preserved(old(scope)@, final(scope)@),
        r matches Ok(vals) ==> vals@.len() == es@.len(),
        all_number_atoms(es@) ==> (r matches Ok(vals) && values_view(vals@)
            == number_atom_values(es@)),
    decreases fuel, esize_list(es@), 3nat,
{
    let mut out: Vec<Value> = Vec::new();
    let mut i: usize = 0;
    while i < es.len()
        invariant
            i <= es.len(),
            out@.len() == i as int,
            scope_wf(scope@),
            frames_preserved(old(scope)@, scope@),
            sc < scope@.len(),
            all_number_atoms(es@) ==> forall|j: int|
                0 <= j < i ==> value_view(out@[j]) == ValueM::Number(es@[j]->Number_0 as int),
        decreases es.len() - i,
    {
        proof {
            lemma_esize_list_bound(es@, i as int);
        }
        match eval_expr(scope, sc, &es[i], fuel) {
            Ok(v) => {
                out.push(v);
            },
            Err(e) => {
                return Err(e);
            },
        }
        i = i + 1;
    }
    proof {
        if all_number_atoms(es@) {
            lemma_values_view(out@);
            assert(values_view(out@) =~= number_atom_values(es@));
        }
    }
    Ok(out)
}

/// Desugars n-ary boolean composition: with exactly two sub-expressions
/// the pairwise `or`/`and` builtin is called unchanged; with any other
/// count the call is rewritten to `thresh(k, ...)`, `k` being 1 for `or`
/// and the operand count for `and`. Resolution goes through the scope
/// before any operand is evaluated, so these names may be shadowed; the
/// delegation clauses hold when they are bound to their builtins.
#[verifier::loop_isolation(false)]
pub fn eval_andor(scope: &mut Scope, sc: usize, conj: bool, k: usize, es: &Vec<Expr>, fuel: u64) -> (r:
    Result<Value, Error>)
    requires
        scope_wf(old(scope)@),
        sc < old(scope)@.len(),
    ensures
        scope_wf(final(scope)@),
        frames_preserved(old(scope)@, final(scope)@),
        es@.len() == 2 && !conj && lookup(old(scope)@, sc as int, "or"@) is None ==> (r matches Err(
            e,
        ) && e@ == ErrorM::FnNotFound("or"@) && final(scope)@ == old(scope)@),
        es@.len() == 2 && conj && lookup(old(scope)@, sc as int, "and"@) is None ==> (r matches Err(
            e,
        ) && e@ == ErrorM::FnNotFound("and"@) && final(scope)@ == old(scope)@),
        es@.len() != 2 && lookup(old(scope)@, sc as int, "thresh"@) is None ==> (r matches Err(e)
            && e@ == ErrorM::FnNotFound("thresh"@) && final(scope)@ == old(scope)@),
        r matches Ok(v) ==> (es@.len() == 2 && !conj && fuel > 0 && lookup(
            old(scope)@,
            sc as int,
            "or"@,
        ) == Some(ValueM::Function(Function::Builtin(crate::function::Builtin::Or)))
            ==> exists|vals: Seq<ValueM>|
            #![auto]
            vals.len() == 2 && crate::stdlib::miniscript::builtin_or(vals) == Ok::<ValueM, ErrorM>(
                v@,
            )),
        r matches Ok(v) ==> (es@.len() == 2 && conj && fuel > 0 && lookup(
            old(scope)@,
            sc as int,
            "and"@,
        ) == Some(ValueM::Function(Function::Builtin(crate::function::Builtin::And)))
            ==> exists|vals: Seq<ValueM>|
            #![auto]
            vals.len() == 2 && crate::stdlib::miniscript::builtin_and(vals) == Ok::<ValueM, ErrorM>(
                v@,
            )),
        r matches Ok(v) ==> (es@.len() != 2 && fuel > 0 && lookup(
            old(scope)@,
            sc as int,
            "thresh"@,
        ) == Some(ValueM::Function(Function::Builtin(crate::function::Builtin::Thresh)))
            ==> exists|vals: Seq<ValueM>|
            #![auto]
            vals.len() == es@.len() && crate::stdlib::miniscript::builtin_thresh(
                seq![ValueM::Number(k as int)] + vals,
            ) == Ok::<ValueM, ErrorM>(v@)),
    decreases fuel, 1 + esize_list(es@), 1nat,
{
    let two = es.len() == 2;
    let id = if two {
        if conj {
            Ident("and".to_owned())
        } else {
            Ident("or".to_owned())
        }
    } else {
        Ident("thresh".to_owned())
    };
    let f = match resolve_function(scope, sc, &id) {
        Ok(f) => f,
        Err(e) => {
            return Err(e);
        },
    };
    let vals = match eval_exprs(scope, sc, es, fuel) {
        Ok(vals) => vals,
        Err(e) => {
            return Err(e);
        },
    };
    proof {
        lemma_values_view(vals@);
    }
    if two {
        let ghost valsm = values_view(vals@);
        let r = invoke(scope, &f, &id, vals, fuel);
        proof {
            if fuel > 0 && r is Ok {
                if !conj && lookup(old(scope)@, sc as int, "or"@) == Some(
                    ValueM::Function(Function::Builtin(crate::function::Builtin::Or)),
                ) {
                    let inner = choose|inner: Result<ValueM, ErrorM>|
                        #![auto]
                        crate::stdlib::builtin_matches(
                            crate::function::Builtin::Or,
                            valsm,
                            inner,
                        ) && (match r {
                            Ok(v) => Ok::<ValueM, ErrorM>(v@),
                            Err(e) => Err::<ValueM, ErrorM>(e@),
                        }) == wrap_call(id.0@, inner);
                    assert(valsm.len() == 2 && crate::stdlib::miniscript::builtin_or(valsm)
                        == Ok::<ValueM, ErrorM>(r->Ok_0@));
                }
                if conj && lookup(old(scope)@, sc as int, "and"@) == Some(
                    ValueM::Function(Function::Builtin(crate::function::Builtin::And)),
                ) {
                    let inner = choose|inner: Result<ValueM, ErrorM>|
                        #![auto]
                        crate::stdlib::builtin_matches(
                            crate::function::Builtin::And,
                            valsm,
                            inner,
                        ) && (match r {
                            Ok(v) => Ok::<ValueM, ErrorM>(v@),
                            Err(e) => Err::<ValueM, ErrorM>(e@),
                        }) == wrap_call(id.0@, inner);
                    assert(valsm.len() == 2 && crate::stdlib::miniscript::builtin_and(valsm)
                        == Ok::<ValueM, ErrorM>(r->Ok_0@));
                }
            }
        }
        r
    } else {
        let ghost valsm = values_view(vals@);
        let mut args: Vec<Value> = Vec::new();
        args.push(Value::Number(k));
        let mut rest = vals;
        args.append(&mut rest);
        proof {
            lemma_values_view(args@);
            assert(values_view(args@) =~= seq![ValueM::Number(k as int)] + valsm);
        }
        let ghost argsm = values_view(args@);
        let r = invoke(scope, &f, &id, args, fuel);
        proof {
            if fuel > 0 && r is Ok && lookup(old(scope)@, sc as int, "thresh"@) == Some(
                ValueM::Function(Function::Builtin(crate::function::Builtin::Thresh)),
            ) {
                let inner = choose|inner: Result<ValueM, ErrorM>|
                    #![auto]
                    crate::stdlib::builtin_matches(
                        crate::function::Builtin::Thresh,
                        argsm,
                        inner,
                    ) && (match r {
                        Ok(v) => Ok::<ValueM, ErrorM>(v@),
                        Err(e) => Err::<ValueM, ErrorM>(e@),
                    }) == wrap_call(id.0@, inner);
                assert(inner == crate::stdlib::miniscript::builtin_thresh(argsm));
                assert(valsm.len() == es@.len());
                assert(crate::stdlib::miniscript::builtin_thresh(
                    seq![ValueM::Number(k as int)] + valsm,
                ) == Ok::<ValueM, ErrorM>(r->Ok_0@));
            }
        }
        r
    }
}

/// Resolves a name to the callable it is bound to: an unbound name, or a
/// name bound to a value that is not callable, is the function-not-found
/// error, and the scope is untouched.
pub fn resolve_function(scope: &Scope, sc: usize, id: &Ident) -> (r: Result<Function, Error>)
    requires
        scope_wf(scope@),
        sc < scope@.len(),
    ensures
        r matches Ok(f) ==> lookup(scope@, sc as int, id.0@) == Some(ValueM::Function(f)),
        r matches Err(e) ==> e@ == ErrorM::FnNotFound(id.0@),
        lookup(scope@, sc as int, id.0@) is None ==> r is Err,
        (match lookup(scope@, sc as int, id.0@) {
            Some(v) => !(v is Function),
            None => false,
        }) ==> r is Err,
        (match lookup(scope@, sc as int, id.0@) {
            Some(v) => v is Function,
            None => false,
        }) ==> r is Ok,
{
    match scope.get(sc, id) {
        Some(Value::Function(f)) => Ok(f),
        Some(_) => Err(Error::FnNotFound(id.duplicate())),
        None => Err(Error::FnNotFound(id.duplicate())),
    }
}

/// Calls the function bound to `id`. The name is resolved first: an
/// unbound name fails with the function-not-found error before any
/// argument is evaluated, and so does a name bound to a value that is not
/// callable. Then every argument expression is evaluated, left to right,
/// against the calling frame, and the function is invoked once on the
/// results; every failure from inside the invocation is wrapped with the
/// called name.
#[verifier::loop_isolation(false)]
pub fn call(scope: &mut Scope, sc: usize, id: &Ident, es: &Vec<Expr>, fuel: u64) -> (r: Result<
    Value,
    Error,
>)
    requires
        scope_wf(old(scope)@),
        sc < old(scope)@.len(),
    ensures
        scope_wf(final(scope)@),
        frames_preserved(old(scope)@, final(scope)@),
        lookup(old(scope)@, sc as int, id.0@) is None ==> (r matches Err(e) && e@
            == ErrorM::FnNotFound(id.0@) && final(scope)@ == old(scope)@),
        (match lookup(old(scope)@, sc as int, id.0@) {
            Some(v) => !(v is Function),
            None => false,
        }) ==> (r matches Err(e) && e@ == ErrorM::FnNotFound(id.0@) && final(scope)@ == old(
            scope,
        )@),
        r matches Ok(v) ==> (fuel > 0 && (match lookup(old(scope)@, sc as int, id.0@) {
            Some(b) => b matches ValueM::Function(f) && f matches Function::Builtin(bb)
                && crate::stdlib::is_pure_builtin(bb),
            None => false,
        }) ==> exists|vals: Seq<ValueM>, inner: Result<ValueM, ErrorM>|
            #![auto]
            vals.len() == es@.len() && crate::stdlib::builtin_matches(
                lookup(old(scope)@, sc as int, id.0@)->Some_0->Function_0->Builtin_0,
                vals,
                inner,
            ) && inner == Ok::<ValueM, ErrorM>(v@)),
    decreases fuel, 1 + esize_list(es@), 1nat,
{
    let f = match resolve_function(scope, sc, id) {
        Ok(f) => f,
        Err(e) => {
            return Err(e);
        },
    };
    let vals = match eval_exprs(scope, sc, es, fuel) {
        Ok(vals) => vals,
        Err(e) => {
            return Err(e);
        },
    };
    proof {
        lemma_values_view(vals@);
    }
    invoke(scope, &f, id, vals, fuel)
}

/// Invokes an already-resolved callable on already-evaluated arguments,
/// wrapping every failure from inside the invocation -- the callee's own
/// errors and the call-depth ceiling alike -- with the called name, to
/// preserve a call trail.
pub fn invoke(scope: &mut Scope, f: &Function, id: &Ident, vals: Vec<Value>, fuel: u64) -> (r:
    Result<Value, Error>)
    requires
        scope_wf(old(scope)@),
    ensures
        scope_wf(final(scope)@),
        frames_preserved(old(scope)@, final(scope)@),
        r matches Err(e) ==> e@ is CallError && e@->CallError_0 == id.0@,
        (*f) matches Function::Builtin(b) ==> (fuel > 0 ==> exists|inner: Result<ValueM, ErrorM>|
            #![auto]
            crate::stdlib::builtin_matches(b, values_view(vals@), inner) && (match r {
                Ok(v) => Ok::<ValueM, ErrorM>(v@),
                Err(e) => Err::<ValueM, ErrorM>(e@),
            }) == wrap_call(id.0@, inner)),
        (*f) matches Function::Closure(c) ==> (fuel > 0 && c.params@.len() != vals@.len() ==> (
        r matches Err(e) && e@ == ErrorM::CallError(
            id.0@,
            Box::new(ErrorM::InvalidArguments),
        ))),
    decreases fuel, 0nat, 1nat,
{
    let ghost valsm = values_view(vals@);
    let cr = call_fn(scope, f, vals, fuel);
    match cr {
        Ok(v) => {
            proof {
                if fuel > 0 && f is Builtin {
                    let inner = Ok::<ValueM, ErrorM>(v@);
                    assert(crate::stdlib::builtin_matches(f->Builtin_0, valsm, inner) && Ok::<
                        ValueM,
                        ErrorM,
                    >(v@) == wrap_call(id.0@, inner));
                }
            }
            Ok(v)
        },
        Err(e) => {
            let werr = Error::CallError(id.duplicate(), Box::new(e));
            proof {
                if fuel > 0 && f is Builtin {
                    let inner = Err::<ValueM, ErrorM>(werr->CallError_1@);
                    assert(crate::stdlib::builtin_matches(f->Builtin_0, valsm, inner) && Err::<
                        ValueM,
                        ErrorM,
                    >(werr@) == wrap_call(id.0@, inner));
                }
            }
            Err(werr)
        },
    }
}

/// Invokes a callable on evaluated arguments, charging one unit of call
/// depth. A builtin receives the arguments (and, for the callback-invoking
/// builtins, the scope); a closure's body is evaluated in a fresh
/// activation frame whose parent is the closure's captured defining scope
/// -- not the caller's frame -- with each formal parameter bound, in
/// order, to the corresponding argument. An arity mismatch is an error at
/// call time.
#[verifier::loop_isolation(false)]
pub fn call_fn(scope: &mut Scope, func: &Function, args: Vec<Value>, fuel: u64) -> (r: Result<
    Value,
    Error,
>)
    requires
        scope_wf(old(scope)@),
    ensures
        scope_wf(final(scope)@),
        frames_preserved(old(scope)@, final(scope)@),
        fuel == 0 ==> (r matches Err(e) && e@ == ErrorM::RecursionLimit),
        (*func) matches Function::Builtin(b) ==> (fuel > 0 ==> crate::stdlib::builtin_matches(
            b,
            values_view(args@),
            match r {
                Ok(v) => Ok(v@),
                Err(e) => Err(e@),
            },
        )),
        (*func) matches Function::Closure(c) ==> (fuel > 0 && c.params@.len() != args@.len()
            ==> (r matches Err(e) && e@ == ErrorM::InvalidArguments)),
        (*func) matches Function::Closure(c) ==> (fuel > 0 && c.scope < old(scope)@.len()
            && c.params@.len() == args@.len() && distinct_names(idents_view(c.params@)) ==> (
        final(scope)@.len() > old(scope)@.len() && final(scope)@[old(scope)@.len() as int].parent
            == Some(c.scope as int) && final(scope)@[old(scope)@.len() as int].binds == zip_binds(
            idents_view(c.params@),
            values_view(args@),
        ))),
    decreases fuel, 0nat, 0nat,
{
    if fuel == 0 {
        return Err(Error::RecursionLimit);
    }
    match func {
        Function::Builtin(b) => crate::stdlib::dispatch_builtin(*b, args, scope, fuel - 1),
        Function::Closure(c) => {
            proof {
                lemma_idents_view(c.params@);
                lemma_values_view(args@);
            }
            if c.params.len() != args.len() {
                return Err(Error::InvalidArguments);
            }
            if c.scope >= scope.frame_count() {
                return Err(Error::InvalidArguments);
            }
            let frame = scope.child(c.scope);
            let ghost entry = scope@;
            let n = c.params.len();
            let mut i: usize = 0;
            while i < n
                invariant
                    i <= n,
                    n == c.params@.len(),
                    n == args@.len(),
                    scope_wf(scope@),
                    scope@.len() == entry.len(),
                    frame == entry.len() - 1,
                    forall|j: int| 0 <= j < frame ==> scope@[j] == entry[j],
                    scope@[frame as int].parent == Some(c.scope as int),
                    distinct_names(idents_view(c.params@)) ==> scope@[frame as int].binds
                        == zip_binds(idents_view(c.params@), values_view(args@)).subrange(
                        0,
                        i as int,
                    ),
                decreases n - i,
            {
                let pid = c.params[i].duplicate();
                let v = args[i].duplicate();
                let ghost before = scope@;
                match scope.set(frame, pid, v) {
                    Ok(()) => {
                        proof {
                            if distinct_names(idents_view(c.params@)) {
                                assert(scope@[frame as int].binds =~= zip_binds(
                                    idents_view(c.params@),
                                    values_view(args@),
                                ).subrange(0, i + 1));
                            }
                        }
                    },
                    Err(e) => {
                        proof {
                            if distinct_names(idents_view(c.params@)) {
                                lemma_find_zip_absent(
                                    idents_view(c.params@),
                                    values_view(args@),
                                    i as int,
                                );
                                assert(false);
                            }
                        }
                        return Err(e);
                    },
                }
                i = i + 1;
            }
            proof {
                if distinct_names(idents_view(c.params@)) {
                    assert(zip_binds(idents_view(c.params@), values_view(args@)).subrange(
                        0,
                        n as int,
                    ) =~= zip_binds(idents_view(c.params@), values_view(args@)));
                }
            }
            let ghost bound = scope@;
            let r = eval_expr(scope, frame, &*c.body, fuel - 1);
            proof {
                assert(frames_preserved(bound, scope@));
                assert(scope@[frame as int] == bound[frame as int]);
            }
            r
        },
    }
}

/// With distinct names, the next zipped name is absent from the bindings
/// made so far.
proof fn lemma_find_zip_absent(ns: Seq<Seq<char>>, vs: Seq<ValueM>, i: int)
    requires
        distinct_names(ns),
        ns.len() == vs.len(),
        0 <= i < ns.len(),
    ensures
        find_bind(zip_binds(ns, vs).subrange(0, i), ns[i]) is None,
    decreases i,
{
    if i > 0 {
        let zb = zip_binds(ns, vs);
        let pre = zb.subrange(0, i);
        assert(pre[0] == (ns[0], vs[0]));
        assert(ns[0] != ns[i]);
        let shifted_ns = ns.subrange(1, ns.len() as int);
        let shifted_vs = vs.subrange(1, vs.len() as int);
        lemma_find_zip_absent(shifted_ns, shifted_vs, i - 1);
        assert(zip_binds(shifted_ns, shifted_vs).subrange(0, i - 1) =~= pre.subrange(
            1,
            pre.len() as int,
        )) by {
            assert forall|j: int| 0 <= j < i - 1 implies zip_binds(shifted_ns, shifted_vs)[j]
                == pre[j + 1] by {
                assert(shifted_ns[j] == ns[j + 1]);
                assert(shifted_vs[j] == vs[j + 1]);
            }
        }
        assert(shifted_ns[i - 1] == ns[i]);
    }
}

/// Executes the statements of a block, in order, against the block's own
/// frame: bindings land in that frame only.
#[verifier::loop_isolation(false)]
pub fn exec_stmts(scope: &mut Scope, sc: usize, stmts: &Vec<Stmt>, fuel: u64) -> (r: Result<
    (),
    Error,
>)
    requires
        scope_wf(old(scope)@),
        sc < old(scope)@.len(),
    ensures
        scope_wf(final(scope)@),
        frames_preserved_except(old(scope)@, final(scope)@, sc as int),
        sc < final(scope)@.len(),
        stmts@.len() == 0 ==> final(scope)@ == old(scope)@ && r is Ok,
    decreases fuel, ssize_list(stmts@), 3nat,
{
    let mut i: usize = 0;
    while i < stmts.len()
        invariant
            i <= stmts.len(),
            scope_wf(scope@),
            frames_preserved_except(old(scope)@, scope@, sc as int),
            sc < scope@.len(),
            i == 0 ==> scope@ == old(scope)@,
        decreases stmts.len() - i,
    {
        proof {
            lemma_ssize_list_bound(stmts@, i as int);
        }
        match exec_stmt(scope, sc, &stmts[i], fuel) {
            Ok(()) => {},
            Err(e) => {
                return Err(e);
            },
        }
        i = i + 1;
    }
    Ok(())
}

/// Executes one statement against frame `sc`: an assignment evaluates each
/// right-hand side and binds it immediately, left to right; a function
/// definition binds the name to a closure capturing frame `sc` itself.
#[verifier::loop_isolation(false)]
pub fn exec_stmt(scope: &mut Scope, sc: usize, st: &Stmt, fuel: u64) -> (r: Result<(), Error>)
    requires
        scope_wf(old(scope)@),
        sc < old(scope)@.len(),
    ensures
        scope_wf(final(scope)@),
        frames_preserved_except(old(scope)@, final(scope)@, sc as int),
        sc < final(scope)@.len(),
        (*st) matches Stmt::FnDef(fd) ==> (r is Ok ==> final(scope)@[sc as int].binds == old(
            scope,
        )@[sc as int].binds.push(
            (
                fd.ident.0@,
                ValueM::Function(
                    Function::Closure(
                        crate::function::Closure { params: fd.args, body: fd.body, scope: sc },
                    ),
                ),
            ),
        )),
        (*st) matches Stmt::FnDef(fd) ==> (r matches Err(e) ==> e@ == ErrorM::DuplicateBinding(
            fd.ident.0@,
        )),
    decreases fuel, ssize(*st), 2nat,
{
    match st {
        Stmt::Assign(asgs) => {
            proof {
                assert(ssize(*st) == 1 + assigns_size(asgs@));
            }
            let mut i: usize = 0;
            while i < asgs.len()
                invariant
                    i <= asgs.len(),
                    scope_wf(scope@),
                    frames_preserved_except(old(scope)@, scope@, sc as int),
                    sc < scope@.len(),
                decreases asgs.len() - i,
            {
                proof {
                    lemma_assigns_size_bound(asgs@, i as int);
                }
                let v = match eval_expr(scope, sc, &asgs[i].rhs, fuel) {
                    Ok(v) => v,
                    Err(e) => {
                        return Err(e);
                    },
                };
                match scope.set(sc, asgs[i].lhs.duplicate(), v) {
                    Ok(()) => {},
                    Err(e) => {
                        return Err(e);
                    },
                }
                i = i + 1;
            }
            Ok(())
        },
        Stmt::FnDef(fd) => {
            let func = crate::function::closure_of(&fd.args, &fd.body, sc);
            match scope.set(sc, fd.ident.duplicate(), Value::Function(func)) {
                Ok(()) => Ok(()),
                Err(e) => Err(e),
            }
        },
    }
}

/// Finishes a block after its statements ran: a trailing expression is the
/// block's value, evaluated in the block's own frame; otherwise a binding
/// named `main` that resolves to a function is invoked with no arguments;
/// otherwise the block has no value.
pub fn block_epilogue(scope: &mut Scope, sc: usize, ret: &Option<Box<Expr>>, fuel: u64) -> (r:
    Result<Value, Error>)
    requires
        scope_wf(old(scope)@),
        sc < old(scope)@.len(),
    ensures
        scope_wf(final(scope)@),
        frames_preserved(old(scope)@, final(scope)@),
        (*ret) is None ==> (match lookup(old(scope)@, sc as int, "main"@) {
            Some(v) => !(v is Function) ==> (r matches Err(e) && e@ == ErrorM::NoReturnValue),
            None => r matches Err(e) && e@ == ErrorM::NoReturnValue,
        }),
        (*ret) matches Some(r_) ==> ((*r_) matches Expr::Number(n) ==> (r matches Ok(v) && v@
            == ValueM::Number(n as int))),
        (*ret) matches Some(r_) ==> ((*r_) matches Expr::Ident(id) ==> (match lookup(
            old(scope)@,
            sc as int,
            id.0@,
        ) {
            Some(v) => r matches Ok(rv) && rv@ == v,
            None => r matches Err(err) && err@ == ErrorM::VarNotFound(id.0@),
        })),
    decreases fuel, (match *ret {
        Some(r_) => esize(*r_),
        None => 0nat,
    }), 3nat,
{
    match ret {
        Some(r_) => eval_expr(scope, sc, r_, fuel),
        None => {
            let main_id = Ident("main".to_owned());
            match scope.get(sc, &main_id) {
                Some(Value::Function(f)) => call_fn(scope, &f, Vec::new(), fuel),
                Some(_) => Err(Error::NoReturnValue),
                None => Err(Error::NoReturnValue),
            }
        },
    }
}

/// One key-derivation step per path value, left to right: each value must
/// be a number, taken modulo 2^32 and appended to the key's fixed text as
/// a non-hardened child index; the first non-number value is its error.
pub open spec fn derive_key_fold(base: Seq<char>, path: Seq<ValueM>) -> Result<Seq<char>, ErrorM>
    decreases path,
{
    if path.len() == 0 {
        Ok(base)
    } else {
        match path[0] {
            ValueM::Number(n) => derive_key_fold(
                base + "/"@ + crate::textfmt::dec_rep((n % 0x1_0000_0000) as nat),
                path.subrange(1, path.len() as int),
            ),
            v => Err(ErrorM::NotNumber(v)),
        }
    }
}

/// Two descriptors of the same layering kind.
pub open spec fn same_layer(a: DescriptorM, b: DescriptorM) -> bool {
    match a {
        DescriptorM::Wsh(_) => b is Wsh,
        DescriptorM::Wpkh(_) => b is Wpkh,
        DescriptorM::ShWsh(_) => b is ShWsh,
        DescriptorM::ShWpkh(_) => b is ShWpkh,
    }
}

/// What child derivation yields on already-evaluated values. An extendable
/// key takes every path value as a successive non-hardened step and then
/// takes the wildcard mark; a single key cannot be derived from. Any other
/// value is coerced to a descriptor, for which exactly one non-wildcard
/// step is permitted, performed by the external library: the result is a
/// descriptor of the same layering kind whose canonical text is the
/// library's derived text, and a failure of the external step or an
/// unexpected shape of its text is the descriptor-operation error.
pub open spec fn child_derive_matches(
    parent: ValueM,
    path: Seq<ValueM>,
    wild: bool,
    r: Result<ValueM, ErrorM>,
) -> bool {
    match parent {
        ValueM::PubKey(k) => if !k.xpub {
            r == Err::<ValueM, ErrorM>(ErrorM::InvalidSingleDerivation)
        } else {
            match derive_key_fold(k.base, path) {
                Ok(base) => r == Ok::<ValueM, ErrorM>(
                    ValueM::PubKey(PubKeyM { base, wildcard: wild, xpub: true }),
                ),
                Err(e) => r == Err::<ValueM, ErrorM>(e),
            }
        },
        _ => if wild || path.len() != 1 {
            r == Err::<ValueM, ErrorM>(ErrorM::InvalidDescriptorDerivation)
        } else {
            match as_descriptor_ok(parent) {
                Some(d) => match path[0] {
                    ValueM::Number(n) => match crate::bridge::derived_descriptor_of(
                        descriptor_text(d),
                        n % 0x1_0000_0000,
                    ) {
                        Some(t) => match r {
                            Ok(v) => v matches ValueM::Descriptor(d2) && descriptor_text(d2) == t
                                && same_layer(d, d2),
                            Err(e) => e is DescriptorError,
                        },
                        None => r matches Err(e) && e is DescriptorError,
                    },
                    v => r == Err::<ValueM, ErrorM>(ErrorM::NotNumber(v)),
                },
                None => {
                    &&& r is Err
                    &&& (parent is Policy ==> (r matches Err(e) && e is CompilerError))
                    &&& (!(parent is Policy) ==> r == Err::<ValueM, ErrorM>(
                        ErrorM::NotDescriptorLike(parent),
                    ))
                },
            }
        },
    }
}

/// Performs child derivation on already-evaluated values, per
/// `child_derive_matches`.
#[verifier::loop_isolation(false)]
pub fn child_derive(parent: Value, path: Vec<Value>, wild: bool) -> (r: Result<Value, Error>)
    ensures
        child_derive_matches(parent@, values_view(path@), wild, match r {
            Ok(v) => Ok(v@),
            Err(e) => Err(e@),
        }),
{
    proof {
        lemma_values_view(path@);
    }
    let ghost pathm = values_view(path@);
    match parent {
        Value::PubKey(k) => {
            if !k.xpub {
                return Err(Error::InvalidSingleDerivation);
            }
            let ghost base0 = k@.base;
            proof {
                assert(pathm.subrange(0, pathm.len() as int) =~= pathm);
            }
            let mut cur = k;
            let mut i: usize = 0;
            while i < path.len()
                invariant
                    i <= path@.len(),
                    cur@.xpub,
                    derive_key_fold(base0, pathm) == derive_key_fold(
                        cur@.base,
                        pathm.subrange(i as int, pathm.len() as int),
                    ),
                decreases path@.len() - i,
            {
                proof {
                    let suf = pathm.subrange(i as int, pathm.len() as int);
                    assert(suf[0] == pathm[i as int]);
                    assert(suf.subrange(1, suf.len() as int) =~= pathm.subrange(
                        i + 1,
                        pathm.len() as int,
                    ));
                }
                let n = match path[i].duplicate().into_usize() {
                    Ok(n) => n,
                    Err(e) => {
                        return Err(e);
                    },
                };
                let child = ((n as u64) % 0x1_0000_0000u64) as u32;
                cur = cur.derive_step(child);
                i = i + 1;
            }
            proof {
                assert(pathm.subrange(pathm.len() as int, pathm.len() as int)
                    =~= Seq::<ValueM>::empty());
            }
            Ok(Value::PubKey(cur.with_wildcard(wild)))
        },
        other => {
            if wild || path.len() != 1 {
                return Err(Error::InvalidDescriptorDerivation);
            }
            let ghost otherm = other@;
            let desc = match other.into_desc() {
                Ok(d) => d,
                Err(e) => {
                    return Err(e);
                },
            };
            let n = match path[0].duplicate().into_usize() {
                Ok(n) => n,
                Err(e) => {
                    return Err(e);
                },
            };
            let child = ((n as u64) % 0x1_0000_0000u64) as u32;
            let text = desc.render();
            let derived = match crate::bridge::derive_descriptor(text.as_str(), child) {
                Ok(t) => t,
                Err(msg) => {
                    return Err(Error::DescriptorError(msg));
                },
            };
            rewrap_descriptor(&desc, derived)
        },
    }
}

/// Evaluates the child-derivation form: the parent expression first, then
/// every path segment, left to right, and then the derivation itself on
/// the resulting values, per `child_derive_matches`.
#[verifier::loop_isolation(false)]
fn eval_child_derive(
    scope: &mut Scope,
    sc: usize,
    parent: &Box<Expr>,
    path: &Vec<Expr>,
    wild: bool,
    fuel: u64,
) -> (r: Result<Value, Error>)
    requires
        scope_wf(old(scope)@),
        sc < old(scope)@.len(),
    ensures
        scope_wf(final(scope)@),
        frames_preserved(old(scope)@, final(scope)@),
        r matches Ok(v) ==> exists|p: ValueM, vals: Seq<ValueM>|
            #![auto]
            vals.len() == path@.len() && child_derive_matches(p, vals, wild, Ok(v@)),
    decreases fuel, esize(**parent) + esize_list(path@), 3nat,
{
    let pv = match eval_expr(scope, sc, parent, fuel) {
        Ok(v) => v,
        Err(e) => {
            return Err(e);
        },
    };
    let vals = match eval_exprs(scope, sc, path, fuel) {
        Ok(vals) => vals,
        Err(e) => {
            return Err(e);
        },
    };
    let ghost pm = pv@;
    let ghost valsm = values_view(vals@);
    proof {
        lemma_values_view(vals@);
    }
    let r = child_derive(pv, vals, wild);
    proof {
        if r is Ok {
            assert(valsm.len() == path@.len() && child_derive_matches(
                pm,
                valsm,
                wild,
                Ok::<ValueM, ErrorM>(r->Ok_0@),
            ));
        }
    }
    r
}

/// Re-reads a derived descriptor text back into the structured descriptor
/// model: derivation keeps the layering kind, so the text must be the
/// original kind's wrapping around some inner text. The result's canonical
/// text is exactly the derived text; any other shape is rejected.
fn rewrap_descriptor(original: &Descriptor, derived: String) -> (r: Result<Value, Error>)
    ensures
        r matches Ok(v) ==> v@ matches ValueM::Descriptor(d) && descriptor_text(d) == derived@
            && same_layer(original@, d),
        r matches Err(e) ==> e@ == ErrorM::DescriptorError(derived@),
{
    let (prefix, suffix): (&str, &str) = match original {
        Descriptor::Wsh(_) => ("wsh(", ")"),
        Descriptor::Wpkh(_) => ("wpkh(", ")"),
        Descriptor::ShWsh(_) => ("sh(wsh(", "))"),
        Descriptor::ShWpkh(_) => ("sh(wpkh(", "))"),
    };
    let n = derived.as_str().unicode_len();
    let plen = prefix.unicode_len();
    let slen = suffix.unicode_len();
    if n < plen {
        return Err(Error::DescriptorError(derived));
    }
    if n - plen < slen {
        return Err(Error::DescriptorError(derived));
    }
    let inner = derived.as_str().substring_char(plen, n - slen).to_owned();
    let rebuilt = crate::domain::wrap_text(prefix, &inner, suffix);
    if rebuilt == derived {
        let d = match original {
            Descriptor::Wsh(_) => Descriptor::Wsh(inner),
            Descriptor::Wpkh(_) => Descriptor::Wpkh(inner),
            Descriptor::ShWsh(_) => Descriptor::ShWsh(inner),
            Descriptor::ShWpkh(_) => Descriptor::ShWpkh(inner),
        };
        Ok(Value::Descriptor(d))
    } else {
        Err(Error::DescriptorError(derived))
    }
}


/// Canonical text of a network tag.
pub open spec fn network_text(n: Network) -> Seq<char> {
    match n {
        Network::Bitcoin => "bitcoin"@,
        Network::Testnet => "testnet"@,
        Network::Regtest => "regtest"@,
    }
}

/// Canonical human text of a value. Arrays render as an indented,
/// newline-separated, comma-joined list; a callable renders as a debug
/// form not meant for canonical output.
pub open spec fn value_text(v: ValueM) -> Seq<char>
    decreases v, 0nat,
{
    match v {
        ValueM::PubKey(k) => key_text(k),
        ValueM::Hash(h) => crate::textfmt::hex_rep(h),
        ValueM::Number(n) => crate::textfmt::dec_rep(if n >= 0 {
            n as nat
        } else {
            0
        }),
        ValueM::DateTime(s) => s,
        ValueM::Duration(s) => s,
        ValueM::Policy(p) => policy_text(p),
        ValueM::WithProb(w, p) => crate::textfmt::dec_rep(if w >= 0 {
            w as nat
        } else {
            0
        }) + "@"@ + policy_text(p),
        ValueM::Miniscript(t) => t,
        ValueM::Descriptor(d) => descriptor_text(d),
        ValueM::Script(b) => crate::textfmt::hex_rep(b),
        ValueM::Address(a) => a,
        ValueM::Function(_) => "<function>"@,
        ValueM::Array(els) => "["@ + items_text(els) + "\n]"@,
        ValueM::Network(n) => network_text(n),
    }
}

/// The items of an array rendering: each on its own indented line, a
/// comma before every item but the first.
pub open spec fn items_text(els: Seq<ValueM>) -> Seq<char>
    decreases els, 1nat,
{
    if els.len() == 0 {
        Seq::empty()
    } else {
        "\n  "@ + value_text(els[0]) + items_tail(els.subrange(1, els.len() as int))
    }
}

/// The items of an array rendering after the first.
pub open spec fn items_tail(els: Seq<ValueM>) -> Seq<char>
    decreases els, 2nat,
{
    if els.len() == 0 {
        Seq::empty()
    } else {
        ",\n  "@ + value_text(els[0]) + items_tail(els.subrange(1, els.len() as int))
    }
}

impl Value {
    /// Renders this value's canonical human text.
    pub fn render(&self) -> (r: String)
        ensures
            r@ == value_text(self@),
        decreases *self, 0nat, 0nat,
    {
        match self {
            Value::PubKey(k) => k.render(),
            Value::Hash(h) => crate::textfmt::fmt_hex(h),
            Value::Number(n) => crate::textfmt::fmt_usize(*n),
            Value::DateTime(s) => s.clone(),
            Value::Duration(d) => d.0.clone(),
            Value::Policy(p) => p.render(),
            Value::WithProb(w, p) => {
                let mut s = crate::textfmt::fmt_usize(*w);
                s.append("@");
                let pt = p.render();
                s.append(pt.as_str());
                s
            },
            Value::Miniscript(m) => m.0.clone(),
            Value::Descriptor(d) => d.render(),
            Value::Script(b) => crate::textfmt::fmt_hex(b),
            Value::Address(a) => a.clone(),
            Value::Function(_) => "<function>".to_owned(),
            Value::Array(a) => {
                let mut s = "[".to_owned();
                let body = render_items(&a.0, 0);
                s.append(body.as_str());
                s.append("\n]");
                proof {
                    assert(a.0@.subrange(0, a.0@.len() as int) =~= a.0@);
                }
                s
            },
            Value::Network(n) => {
                match n {
                    Network::Bitcoin => "bitcoin".to_owned(),
                    Network::Testnet => "testnet".to_owned(),
                    Network::Regtest => "regtest".to_owned(),
                }
            },
        }
    }
}

/// Renders the array items from `from` on.
#[verifier::loop_isolation(false)]
fn render_items(els: &Vec<Value>, from: usize) -> (r: String)
    requires
        from <= els@.len(),
    ensures
        from == 0 ==> r@ == items_text(values_view(els@.subrange(from as int, els@.len() as int))),
        from > 0 ==> r@ == items_tail(values_view(els@.subrange(from as int, els@.len() as int))),
    decreases *els, (els@.len() - from as int), 2nat,
{
    if from >= els.len() {
        proof {
            assert(els@.subrange(from as int, els@.len() as int) =~= Seq::<Value>::empty());
            assert(values_view(Seq::<Value>::empty()) =~= Seq::<ValueM>::empty());
        }
        String::new()
    } else {
        let mut s = if from == 0 {
            "\n  ".to_owned()
        } else {
            ",\n  ".to_owned()
        };
        let it = els[from].render();
        s.append(it.as_str());
        let rest = render_items(els, from + 1);
        s.append(rest.as_str());
        proof {
            let suf = els@.subrange(from as int, els@.len() as int);
            lemma_values_view(suf);
            assert(suf[0] == els@[from as int]);
            let sufm = values_view(suf);
            assert(sufm.subrange(1, sufm.len() as int) =~= values_view(
                els@.subrange(from + 1, els@.len() as int),
            )) by {
                lemma_values_view(els@.subrange(from + 1, els@.len() as int));
                assert forall|j: int| 0 <= j < suf.len() - 1 implies sufm.subrange(
                    1,
                    sufm.len() as int,
                )[j] == values_view(els@.subrange(from + 1, els@.len() as int))[j] by {
                    assert(suf[j + 1] == els@[from + 1 + j]);
                    assert(els@.subrange(from + 1, els@.len() as int)[j] == els@[from + 1 + j]);
                }
            }
            assert(sufm[0] == value_view(els@[from as int]));
        }
        s
    }
}

/// Evaluate an expression. Expressions have no side effects on existing
/// scope frames and return a value.
pub trait Evaluate {
    /// Evaluates `self` against frame `sc`, with `fuel` bounding the call
    /// depth.
    fn eval(&self, scope: &mut Scope, sc: usize, fuel: u64) -> (r: Result<Value, Error>)
        requires
            scope_wf(old(scope)@),
            sc < old(scope)@.len(),
        ensures
            scope_wf(final(scope)@),
            frames_preserved(old(scope)@, final(scope)@),
    ;
}

/// Execute a statement. Statements bind names in the given frame and have
/// no return value.
pub trait Execute {
    /// Executes `self` against frame `sc`.
    fn exec(&self, scope: &mut Scope, sc: usize, fuel: u64) -> (r: Result<(), Error>)
        requires
            scope_wf(old(scope)@),
            sc < old(scope)@.len(),
        ensures
            scope_wf(final(scope)@),
            frames_preserved_except(old(scope)@, final(scope)@, sc as int),
    ;
}

impl Evaluate for Expr {
    fn eval(&self, scope: &mut Scope, sc: usize, fuel: u64) -> (r: Result<Value, Error>) {
        eval_expr(scope, sc, self, fuel)
    }
}

impl Execute for Stmt {
    fn exec(&self, scope: &mut Scope, sc: usize, fuel: u64) -> (r: Result<(), Error>) {
        exec_stmt(scope, sc, self, fuel)
    }
}

} // verus!

//! The library's own model of the spending-condition domain objects.
//!
//! A policy is the abstract spending condition tree; a miniscript value and
//! a descriptor value carry the canonical text of objects the external
//! domain library computed, and the descriptor keeps its layering kind as
//! structure so that layering rules are checked here.

use vstd::prelude::*;
use vstd::string::StringExecFns;
use crate::textfmt::{dec_rep, hex_rep, fmt_usize, fmt_hex};

verus! {

broadcast use vstd::std_specs::vec::group_vec_axioms;

/// A public key: the fixed part of its canonical text (origin, key material
/// and fixed derivation path), whether it ends in a wildcard step, and
/// whether it is an extendable (derivable) key.
#[derive(Debug, PartialEq)]
pub struct PubKey {
    pub base: String,
    pub wildcard: bool,
    pub xpub: bool,
}

/// Mathematical model of a public key.
pub struct PubKeyM {
    pub base: Seq<char>,
    pub wildcard: bool,
    pub xpub: bool,
}

impl View for PubKey {
    type V = PubKeyM;

    open spec fn view(&self) -> PubKeyM {
        PubKeyM { base: self.base@, wildcard: self.wildcard, xpub: self.xpub }
    }
}

/// An abstract spending-condition expression over keys, time-locks and hash
/// preimages.
#[derive(Debug, PartialEq)]
pub enum Policy {
    /// The given key must sign.
    Key(PubKey),
    /// A relative time-lock of the given number of blocks.
    Older(u32),
    /// An absolute time-lock.
    After(u32),
    /// A SHA-256 preimage must be revealed.
    Sha256(Vec<u8>),
    /// A double-SHA-256 preimage must be revealed.
    Hash256(Vec<u8>),
    /// A RIPEMD-160 preimage must be revealed.
    Ripemd160(Vec<u8>),
    /// A HASH-160 preimage must be revealed.
    Hash160(Vec<u8>),
    /// All sub-policies must be satisfied.
    And(Vec<Policy>),
    /// One sub-policy must be satisfied; each carries a relative
    /// satisfaction probability weight.
    Or(Vec<(usize, Policy)>),
    /// At least `k` of the sub-policies must be satisfied.
    Threshold(usize, Vec<Policy>),
}

/// Mathematical model of a policy tree.
pub enum PolicyM {
    Key(PubKeyM),
    Older(int),
    After(int),
    Sha256(Seq<u8>),
    Hash256(Seq<u8>),
    Ripemd160(Seq<u8>),
    Hash160(Seq<u8>),
    And(Seq<PolicyM>),
    Or(Seq<(int, PolicyM)>),
    Threshold(int, Seq<PolicyM>),
}

/// Model of a sequence of policies, pointwise.
pub open spec fn policies_view(ps: Seq<Policy>) -> Seq<PolicyM>
    decreases ps,
{
    if ps.len() == 0 {
        Seq::empty()
    } else {
        seq![policy_view(ps[0])] + policies_view(ps.subrange(1, ps.len() as int))
    }
}

/// Model of a sequence of weighted policies, pointwise.
pub open spec fn pairs_view(ps: Seq<(usize, Policy)>) -> Seq<(int, PolicyM)>
    decreases ps,
{
    if ps.len() == 0 {
        Seq::empty()
    } else {
        seq![(ps[0].0 as int, policy_view(ps[0].1))] + pairs_view(ps.subrange(1, ps.len() as int))
    }
}

/// Model of a policy.
pub open spec fn policy_view(p: Policy) -> PolicyM
    decreases p,
{
    match p {
        Policy::Key(k) => PolicyM::Key(k@),
        Policy::Older(n) => PolicyM::Older(n as int),
        Policy::After(n) => PolicyM::After(n as int),
        Policy::Sha256(h) => PolicyM::Sha256(h@),
        Policy::Hash256(h) => PolicyM::Hash256(h@),
        Policy::Ripemd160(h) => PolicyM::Ripemd160(h@),
        Policy::Hash160(h) => PolicyM::Hash160(h@),
        Policy::And(ps) => PolicyM::And(policies_view(ps@)),
        Policy::Or(ps) => PolicyM::Or(pairs_view(ps@)),
        Policy::Threshold(k, ps) => PolicyM::Threshold(k as int, policies_view(ps@)),
    }
}

impl View for Policy {
    type V = PolicyM;

    open spec fn view(&self) -> PolicyM {
        policy_view(*self)
    }
}

/// The elements of a policy-sequence model, pointwise.
pub proof fn lemma_policies_view(ps: Seq<Policy>)
    ensures
        policies_view(ps).len() == ps.len(),
        forall|i: int| 0 <= i < ps.len() ==> policies_view(ps)[i] == policy_view(ps[i]),
    decreases ps,
{
    if ps.len() > 0 {
        lemma_policies_view(ps.subrange(1, ps.len() as int));
        assert forall|i: int| 0 <= i < ps.len() implies policies_view(ps)[i] == policy_view(
            ps[i],
        ) by {
            if i > 0 {
                assert(ps.subrange(1, ps.len() as int)[i - 1] == ps[i]);
            }
        }
    }
}

/// The elements of a weighted-policy-sequence model, pointwise.
pub proof fn lemma_pairs_view(ps: Seq<(usize, Policy)>)
    ensures
        pairs_view(ps).len() == ps.len(),
        forall|i: int| 0 <= i < ps.len() ==> pairs_view(ps)[i] == (
            ps[i].0 as int,
            policy_view(ps[i].1),
        ),
    decreases ps,
{
    if ps.len() > 0 {
        lemma_pairs_view(ps.subrange(1, ps.len() as int));
        assert forall|i: int| 0 <= i < ps.len() implies pairs_view(ps)[i] == (
            ps[i].0 as int,
            policy_view(ps[i].1),
        ) by {
            if i > 0 {
                assert(ps.subrange(1, ps.len() as int)[i - 1] == ps[i]);
            }
        }
    }
}

/// A compiled-script object, carried as its canonical text.
#[derive(Debug, PartialEq)]
pub struct Miniscript(pub String);

impl View for Miniscript {
    type V = Seq<char>;

    open spec fn view(&self) -> Seq<char> {
        self.0@
    }
}

/// A structured output descriptor: the layering kind, with the canonical
/// text of the wrapped miniscript or key inside.
#[derive(Debug, PartialEq)]
pub enum Descriptor {
    /// A segwit-v0 script descriptor wrapping a miniscript.
    Wsh(String),
    /// A pay-to-witness-pubkey-hash descriptor wrapping a key.
    Wpkh(String),
    /// A `wsh` descriptor nested inside `sh`.
    ShWsh(String),
    /// A `wpkh` descriptor nested inside `sh`.
    ShWpkh(String),
}

/// Mathematical model of a descriptor.
pub enum DescriptorM {
    Wsh(Seq<char>),
    Wpkh(Seq<char>),
    ShWsh(Seq<char>),
    ShWpkh(Seq<char>),
}

impl View for Descriptor {
    type V = DescriptorM;

    open spec fn view(&self) -> DescriptorM {
        match self {
            Descriptor::Wsh(s) => DescriptorM::Wsh(s@),
            Descriptor::Wpkh(s) => DescriptorM::Wpkh(s@),
            Descriptor::ShWsh(s) => DescriptorM::ShWsh(s@),
            Descriptor::ShWpkh(s) => DescriptorM::ShWpkh(s@),
        }
    }
}

/// A network tag. Bound as literals in the root scope; no operation of the
/// evaluator constructs one.
#[derive(Debug, Clone, Copy, PartialEq, Eq, Structural)]
pub enum Network {
    Bitcoin,
    Testnet,
    Regtest,
}

/// Canonical text of a public key: its fixed part, then `/*` if it is
/// wildcard-derivable.
pub open spec fn key_text(k: PubKeyM) -> Seq<char> {
    if k.wildcard {
        k.base + "/*"@
    } else {
        k.base
    }
}

/// Canonical text of a policy, in the concrete-policy grammar of the
/// external domain library: `pk(KEY)`, `older(N)`, `after(N)`,
/// `sha256(HEX)` and the like, `and(...)`, `or(W@P,...)`, `thresh(K,...)`.
pub open spec fn policy_text(p: PolicyM) -> Seq<char>
    decreases p,
{
    match p {
        PolicyM::Key(k) => "pk("@ + key_text(k) + ")"@,
        PolicyM::Older(n) => "older("@ + dec_rep(n as nat) + ")"@,
        PolicyM::After(n) => "after("@ + dec_rep(n as nat) + ")"@,
        PolicyM::Sha256(h) => "sha256("@ + hex_rep(h) + ")"@,
        PolicyM::Hash256(h) => "hash256("@ + hex_rep(h) + ")"@,
        PolicyM::Ripemd160(h) => "ripemd160("@ + hex_rep(h) + ")"@,
        PolicyM::Hash160(h) => "hash160("@ + hex_rep(h) + ")"@,
        PolicyM::And(ps) => "and("@ + plist_text(ps) + ")"@,
        PolicyM::Or(ps) => "or("@ + pairs_text(ps) + ")"@,
        PolicyM::Threshold(k, ps) => "thresh("@ + dec_rep(if k >= 0 {
            k as nat
        } else {
            0
        }) + ","@ + plist_text(ps) + ")"@,
    }
}

/// Comma-joined canonical text of a policy list.
pub open spec fn plist_text(ps: Seq<PolicyM>) -> Seq<char>
    decreases ps,
{
    if ps.len() == 0 {
        Seq::empty()
    } else if ps.len() == 1 {
        policy_text(ps[0])
    } else {
        policy_text(ps[0]) + ","@ + plist_text(ps.subrange(1, ps.len() as int))
    }
}

/// Comma-joined canonical text of a weighted policy list, each entry
/// `WEIGHT@POLICY`.
pub open spec fn pairs_text(ps: Seq<(int, PolicyM)>) -> Seq<char>
    decreases ps,
{
    if ps.len() == 0 {
        Seq::empty()
    } else if ps.len() == 1 {
        pair_text(ps[0])
    } else {
        pair_text(ps[0]) + ","@ + pairs_text(ps.subrange(1, ps.len() as int))
    }
}

/// Canonical text of one weighted policy.
pub open spec fn pair_text(p: (int, PolicyM)) -> Seq<char>
    decreases p,
{
    dec_rep(if p.0 >= 0 {
        p.0 as nat
    } else {
        0
    }) + "@"@ + policy_text(p.1)
}

/// Canonical text of a descriptor.
pub open spec fn descriptor_text(d: DescriptorM) -> Seq<char> {
    match d {
        DescriptorM::Wsh(b) => "wsh("@ + b + ")"@,
        DescriptorM::Wpkh(b) => "wpkh("@ + b + ")"@,
        DescriptorM::ShWsh(b) => "sh(wsh("@ + b + "))"@,
        DescriptorM::ShWpkh(b) => "sh(wpkh("@ + b + "))"@,
    }
}

impl PubKey {
    /// A fresh copy of this key.
    pub fn duplicate(&self) -> (r: PubKey)
        ensures
            r@ == self@,
    {
        PubKey { base: self.base.clone(), wildcard: self.wildcard, xpub: self.xpub }
    }

    /// Renders the canonical text of this key.
    pub fn render(&self) -> (r: String)
        ensures
            r@ == key_text(self@),
    {
        let mut s = self.base.clone();
        if self.wildcard {
            s.append("/*");
        }
        s
    }

    /// One non-hardened child-derivation step: appends `/child` to the
    /// fixed part of the key text.
    pub fn derive_step(&self, child: u32) -> (r: PubKey)
        ensures
            r@.base == self@.base + "/"@ + dec_rep(child as nat),
            r@.wildcard == self@.wildcard,
            r@.xpub == self@.xpub,
    {
        let mut base = self.base.clone();
        base.append("/");
        let digits = fmt_usize(child as usize);
        base.append(digits.as_str());
        PubKey { base, wildcard: self.wildcard, xpub: self.xpub }
    }

    /// The same key with its wildcard mark replaced.
    pub fn with_wildcard(&self, wildcard: bool) -> (r: PubKey)
        ensures
            r@.base == self@.base,
            r@.wildcard == wildcard,
            r@.xpub == self@.xpub,
    {
        PubKey { base: self.base.clone(), wildcard, xpub: self.xpub }
    }
}

impl Policy {
    /// A fresh copy of this policy.
    pub fn duplicate(&self) -> (r: Policy)
        ensures
            r@ == self@,
        decreases *self, 0nat, 0nat,
    {
        match self {
            Policy::Key(k) => Policy::Key(k.duplicate()),
            Policy::Older(n) => Policy::Older(*n),
            Policy::After(n) => Policy::After(*n),
            Policy::Sha256(h) => Policy::Sha256(clone_bytes(h)),
            Policy::Hash256(h) => Policy::Hash256(clone_bytes(h)),
            Policy::Ripemd160(h) => Policy::Ripemd160(clone_bytes(h)),
            Policy::Hash160(h) => Policy::Hash160(clone_bytes(h)),
            Policy::And(ps) => Policy::And(duplicate_policies(ps)),
            Policy::Or(ps) => Policy::Or(duplicate_pairs(ps)),
            Policy::Threshold(k, ps) => Policy::Threshold(*k, duplicate_policies(ps)),
        }
    }

    /// Renders the canonical text of this policy.
    pub fn render(&self) -> (r: String)
        ensures
            r@ == policy_text(self@),
        decreases *self, 0nat, 0nat,
    {
        match self {
            Policy::Key(k) => {
                let mut s = String::from_str("pk(");
                let kt = k.render();
                s.append(kt.as_str());
                s.append(")");
                s
            },
            Policy::Older(n) => render_locktime("older(", *n),
            Policy::After(n) => render_locktime("after(", *n),
            Policy::Sha256(h) => render_hash("sha256(", h),
            Policy::Hash256(h) => render_hash("hash256(", h),
            Policy::Ripemd160(h) => render_hash("ripemd160(", h),
            Policy::Hash160(h) => render_hash("hash160(", h),
            Policy::And(ps) => {
                let mut s = String::from_str("and(");
                let body = render_plist(ps, 0);
                s.append(body.as_str());
                s.append(")");
                proof {
                    assert(ps@.subrange(0, ps@.len() as int) =~= ps@);
                }
                s
            },
            Policy::Or(ps) => {
                let mut s = String::from_str("or(");
                let body = render_pairs(ps, 0);
                s.append(body.as_str());
                s.append(")");
                proof {
                    assert(ps@.subrange(0, ps@.len() as int) =~= ps@);
                }
                s
            },
            Policy::Threshold(k, ps) => {
                let mut s = String::from_str("thresh(");
                let digits = fmt_usize(*k);
                s.append(digits.as_str());
                s.append(",");
                let body = render_plist(ps, 0);
                s.append(body.as_str());
                s.append(")");
                proof {
                    assert(ps@.subrange(0, ps@.len() as int) =~= ps@);
                }
                s
            },
        }
    }
}

/// Renders `older(N)` or `after(N)`.
fn render_locktime(prefix: &str, n: u32) -> (r: String)
    ensures
        r@ == prefix@ + dec_rep(n as nat) + ")"@,
{
    let mut s = prefix.to_owned();
    let digits = fmt_usize(n as usize);
    s.append(digits.as_str());
    s.append(")");
    s
}

/// Renders a hash policy fragment: the prefix, the hex digest, `)`.
fn render_hash(prefix: &str, h: &Vec<u8>) -> (r: String)
    ensures
        r@ == prefix@ + hex_rep(h@) + ")"@,
{
    let mut s = prefix.to_owned();
    let digits = fmt_hex(h);
    s.append(digits.as_str());
    s.append(")");
    s
}

/// A fresh copy of a byte string.
#[verifier::loop_isolation(false)]
pub fn clone_bytes(h: &Vec<u8>) -> (r: Vec<u8>)
    ensures
        r@ == h@,
{
    let mut out: Vec<u8> = Vec::new();
    let mut i: usize = 0;
    while i < h.len()
        invariant
            i <= h.len(),
            out@ == h@.subrange(0, i as int),
        decreases h.len() - i,
    {
        out.push(h[i]);
        proof {
            assert(out@ =~= h@.subrange(0, i + 1));
        }
        i = i + 1;
    }
    proof {
        assert(h@.subrange(0, h@.len() as int) =~= h@);
    }
    out
}

/// A fresh copy of a policy list.
#[verifier::loop_isolation(false)]
fn duplicate_policies(ps: &Vec<Policy>) -> (r: Vec<Policy>)
    ensures
        policies_view(r@) == policies_view(ps@),
        r@.len() == ps@.len(),
    decreases *ps, 0nat, 1nat,
{
    let mut out: Vec<Policy> = Vec::new();
    let mut i: usize = 0;
    while i < ps.len()
        invariant
            i <= ps.len(),
            out@.len() == i as int,
            forall|j: int| 0 <= j < i ==> policy_view(out@[j]) == policy_view(ps@[j]),
        decreases ps.len() - i,
    {
        let c = ps[i].duplicate();
        out.push(c);
        i = i + 1;
    }
    proof {
        lemma_policies_view(out@);
        lemma_policies_view(ps@);
        assert(policies_view(out@) =~= policies_view(ps@));
    }
    out
}

/// A fresh copy of a weighted policy list.
#[verifier::loop_isolation(false)]
fn duplicate_pairs(ps: &Vec<(usize, Policy)>) -> (r: Vec<(usize, Policy)>)
    ensures
        pairs_view(r@) == pairs_view(ps@),
        r@.len() == ps@.len(),
    decreases *ps, 0nat, 1nat,
{
    let mut out: Vec<(usize, Policy)> = Vec::new();
    let mut i: usize = 0;
    while i < ps.len()
        invariant
            i <= ps.len(),
            out@.len() == i as int,
            forall|j: int| 0 <= j < i ==> out@[j].0 == ps@[j].0 && policy_view(out@[j].1)
                == policy_view(ps@[j].1),
        decreases ps.len() - i,
    {
        let c = ps[i].1.duplicate();
        let w = ps[i].0;
        out.push((w, c));
        i = i + 1;
    }
    proof {
        lemma_pairs_view(out@);
        lemma_pairs_view(ps@);
        assert(pairs_view(out@) =~= pairs_view(ps@));
    }
    out
}

/// Renders the comma-joined suffix of a policy list starting at `from`.
#[verifier::loop_isolation(false)]
fn render_plist(ps: &Vec<Policy>, from: usize) -> (r: String)
    requires
        from <= ps@.len(),
    ensures
        r@ == plist_text(policies_view(ps@.subrange(from as int, ps@.len() as int))),
    decreases *ps, (ps@.len() - from as int), 2nat,
{
    if from >= ps.len() {
        String::new()
    } else if from + 1 == ps.len() {
        proof {
            let suf = ps@.subrange(from as int, ps@.len() as int);
            lemma_policies_view(suf);
            assert(suf[0] == ps@[from as int]);
        }
        ps[from].render()
    } else {
        let mut s = ps[from].render();
        s.append(",");
        let rest = render_plist(ps, from + 1);
        s.append(rest.as_str());
        proof {
            let suf = ps@.subrange(from as int, ps@.len() as int);
            lemma_policies_view(suf);
            assert(suf[0] == ps@[from as int]);
            assert(policies_view(suf).subrange(1, policies_view(suf).len() as int)
                =~= policies_view(ps@.subrange(from + 1, ps@.len() as int))) by {
                lemma_policies_view(ps@.subrange(from + 1, ps@.len() as int));
                assert forall|j: int| 0 <= j < suf.len() - 1 implies policies_view(
                    suf,
                ).subrange(1, policies_view(suf).len() as int)[j] == policies_view(
                    ps@.subrange(from + 1, ps@.len() as int),
                )[j] by {
                    assert(suf[j + 1] == ps@[from + 1 + j]);
                    assert(ps@.subrange(from + 1, ps@.len() as int)[j] == ps@[from + 1 + j]);
                }
            }
        }
        s
    }
}

/// Renders the comma-joined suffix of a weighted policy list starting at
/// `from`.
#[verifier::loop_isolation(false)]
fn render_pairs(ps: &Vec<(usize, Policy)>, from: usize) -> (r: String)
    requires
        from <= ps@.len(),
    ensures
        r@ == pairs_text(pairs_view(ps@.subrange(from as int, ps@.len() as int))),
    decreases *ps, (ps@.len() - from as int), 2nat,
{
    if from >= ps.len() {
        String::new()
    } else {
        let mut s = fmt_usize(ps[from].0);
        s.append("@");
        let pt = ps[from].1.render();
        s.append(pt.as_str());
        proof {
            let suf = ps@.subrange(from as int, ps@.len() as int);
            lemma_pairs_view(suf);
            assert(suf[0] == ps@[from as int]);
        }
        if from + 1 == ps.len() {
            proof {
                let suf = ps@.subrange(from as int, ps@.len() as int);
                lemma_pairs_view(suf);
                let pv = pairs_view(suf);
                assert(pv.len() == 1);
                assert(pv[0] == (ps@[from as int].0 as int, policy_view(ps@[from as int].1)));
                assert(pairs_text(pv) == pair_text(pv[0]));
                assert(s@ =~= pair_text(pv[0]));
            }
            s
        } else {
            s.append(",");
            let rest = render_pairs(ps, from + 1);
            s.append(rest.as_str());
            proof {
                let suf = ps@.subrange(from as int, ps@.len() as int);
                lemma_pairs_view(suf);
                assert(pairs_view(suf).subrange(1, pairs_view(suf).len() as int) =~= pairs_view(
                    ps@.subrange(from + 1, ps@.len() as int),
                )) by {
                    lemma_pairs_view(ps@.subrange(from + 1, ps@.len() as int));
                    assert forall|j: int| 0 <= j < suf.len() - 1 implies pairs_view(suf).subrange(
                        1,
                        pairs_view(suf).len() as int,
                    )[j] == pairs_view(ps@.subrange(from + 1, ps@.len() as int))[j] by {
                        assert(suf[j + 1] == ps@[from + 1 + j]);
                        assert(ps@.subrange(from + 1, ps@.len() as int)[j] == ps@[from + 1 + j]);
                    }
                }
                let pv = pairs_view(suf);
                assert(pv[0] == (ps@[from as int].0 as int, policy_view(ps@[from as int].1)));
                assert(pairs_text(pv) == pair_text(pv[0]) + ","@ + pairs_text(
                    pv.subrange(1, pv.len() as int),
                ));
                assert(s@ =~= pair_text(pv[0]) + ","@ + pairs_text(pv.subrange(1, pv.len() as int)));
            }
            s
        }
    }
}

impl Miniscript {
    /// A fresh copy.
    pub fn duplicate(&self) -> (r: Miniscript)
        ensures
            r@ == self@,
    {
        Miniscript(self.0.clone())
    }
}

impl Descriptor {
    /// A fresh copy.
    pub fn duplicate(&self) -> (r: Descriptor)
        ensures
            r@ == self@,
    {
        match self {
            Descriptor::Wsh(s) => Descriptor::Wsh(s.clone()),
            Descriptor::Wpkh(s) => Descriptor::Wpkh(s.clone()),
            Descriptor::ShWsh(s) => Descriptor::ShWsh(s.clone()),
            Descriptor::ShWpkh(s) => Descriptor::ShWpkh(s.clone()),
        }
    }

    /// Renders the canonical descriptor text.
    pub fn render(&self) -> (r: String)
        ensures
            r@ == descriptor_text(self@),
    {
        match self {
            Descriptor::Wsh(b) => wrap_text("wsh(", b, ")"),
            Descriptor::Wpkh(b) => wrap_text("wpkh(", b, ")"),
            Descriptor::ShWsh(b) => wrap_text("sh(wsh(", b, "))"),
            Descriptor::ShWpkh(b) => wrap_text("sh(wpkh(", b, "))"),
        }
    }
}

/// Builds `prefix + body + suffix`.
pub fn wrap_text(prefix: &str, body: &String, suffix: &str) -> (r: String)
    ensures
        r@ == prefix@ + body@ + suffix@,
{
    let mut s = prefix.to_owned();
    s.append(body.as_str());
    s.append(suffix);
    s
}

} // verus!

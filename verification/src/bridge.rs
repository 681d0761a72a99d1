//! The trusted boundary to the external cryptographic/domain library.
//!
//! Each function here wraps one operation of that library over plain
//! values (text and bytes). Results that depend on the arguments alone and
//! are too involved to state are given names (`compiled_of` and the like);
//! verified code reasons over those names.

use vstd::prelude::*;
use std::str::FromStr;

verus! {

/// The classification the external key parser gives a key text:
/// `Some(true)` for an extendable (xpub) key, `Some(false)` for a single
/// key, `None` when the text does not parse as a supported key. A function
/// of the text alone.
pub uninterp spec fn key_class_of(s: Seq<char>) -> Option<bool>;

/// Relies on miniscript's `DescriptorPublicKey::from_str`, which parses a
/// key text deterministically. Multi-path keys are not part of this
/// language and classify as unsupported.
#[verifier::external_body]
pub fn key_class(s: &str) -> (r: Option<bool>)
    ensures
        r == key_class_of(s@),
{
    match miniscript::DescriptorPublicKey::from_str(s) {
        Ok(miniscript::DescriptorPublicKey::XPub(_)) => Some(true),
        Ok(miniscript::DescriptorPublicKey::Single(_)) => Some(false),
        Ok(miniscript::DescriptorPublicKey::MultiXPub(_)) => None,
        Err(_) => None,
    }
}

/// The canonical text of the compiled-script object that the external
/// compiler produces for a policy text, or `None` where it rejects the
/// policy (ill-formed, unsafe or malleable). A function of the text alone:
/// the compiler is deterministic.
pub uninterp spec fn compiled_of(s: Seq<char>) -> Option<Seq<char>>;

/// Relies on miniscript's `Policy::from_str` (parsing the concrete-policy
/// grammar), `Policy::compile` for the segwit-v0 context, and the
/// compiled miniscript's canonical `Display` text. The error text carries
/// the library's diagnostic and is not otherwise specified.
#[verifier::external_body]
pub fn compile_policy(s: &str) -> (r: Result<String, String>)
    ensures
        r is Ok <==> compiled_of(s@) is Some,
        r matches Ok(t) ==> Some(t@) == compiled_of(s@),
{
    let pol = match miniscript::policy::concrete::Policy::<miniscript::DescriptorPublicKey>::from_str(
        s,
    ) {
        Ok(p) => p,
        Err(e) => return Err(format!("{}", e)),
    };
    match pol.compile::<miniscript::Segwitv0>() {
        Ok(ms) => Ok(format!("{}", ms)),
        Err(e) => Err(format!("{}", e)),
    }
}

/// The scriptPubKey bytes of a descriptor text at derivation index 0, or
/// `None` where the text does not parse as a descriptor or cannot be made
/// definite. A function of the text alone.
pub uninterp spec fn script_pubkey_of(d: Seq<char>) -> Option<Seq<u8>>;

/// Relies on miniscript's `Descriptor::from_str`,
/// `Descriptor::at_derivation_index` (child 0 for wildcard keys) and
/// `Descriptor::script_pubkey`.
#[verifier::external_body]
pub fn descriptor_script_pubkey(d: &str) -> (r: Result<Vec<u8>, String>)
    ensures
        r is Ok <==> script_pubkey_of(d@) is Some,
        r matches Ok(b) ==> Some(b@) == script_pubkey_of(d@),
{
    let desc = miniscript::Descriptor::<miniscript::DescriptorPublicKey>::from_str(d).map_err(
        |e| format!("{}", e),
    )?;
    let def = desc.at_derivation_index(0).map_err(|e| format!("{}", e))?;
    Ok(def.script_pubkey().into_bytes())
}

/// The explicit (witness/redeem) script bytes of a descriptor text at
/// derivation index 0, or `None` on failure. A function of the text alone.
pub uninterp spec fn explicit_script_of(d: Seq<char>) -> Option<Seq<u8>>;

/// Relies on miniscript's `Descriptor::from_str`,
/// `Descriptor::at_derivation_index` and `Descriptor::explicit_script`.
#[verifier::external_body]
pub fn descriptor_explicit_script(d: &str) -> (r: Result<Vec<u8>, String>)
    ensures
        r is Ok <==> explicit_script_of(d@) is Some,
        r matches Ok(b) ==> Some(b@) == explicit_script_of(d@),
{
    let desc = miniscript::Descriptor::<miniscript::DescriptorPublicKey>::from_str(d).map_err(
        |e| format!("{}", e),
    )?;
    let def = desc.at_derivation_index(0).map_err(|e| format!("{}", e))?;
    def.explicit_script().map(|s| s.into_bytes()).map_err(|e| format!("{}", e))
}

/// The pay-to-witness-script-hash scriptPubKey of a witness script. A
/// function of the script bytes alone.
pub uninterp spec fn p2wsh_of(b: Seq<u8>) -> Seq<u8>;

/// Relies on bitcoin's `Script::to_p2wsh`, whose result is `OP_0` plus a
/// 32-byte hash push: 34 bytes.
#[verifier::external_body]
pub fn script_p2wsh(b: &Vec<u8>) -> (r: Vec<u8>)
    ensures
        r@ == p2wsh_of(b@),
        r@.len() == 34,
{
    miniscript::bitcoin::Script::from_bytes(b.as_slice()).to_p2wsh().into_bytes()
}

/// The canonical text (without checksum) of a descriptor text with every
/// wildcard replaced by the given child index, or `None` where the text
/// does not parse or the index is not usable. A function of text and index
/// alone.
pub uninterp spec fn derived_descriptor_of(d: Seq<char>, idx: int) -> Option<Seq<char>>;

/// Relies on miniscript's `Descriptor::from_str`,
/// `Descriptor::at_derivation_index` and the derived descriptor's
/// checksum-free alternate `Display` text.
#[verifier::external_body]
pub fn derive_descriptor(d: &str, idx: u32) -> (r: Result<String, String>)
    ensures
        r is Ok <==> derived_descriptor_of(d@, idx as int) is Some,
        r matches Ok(t) ==> Some(t@) == derived_descriptor_of(d@, idx as int),
{
    let desc = miniscript::Descriptor::<miniscript::DescriptorPublicKey>::from_str(d).map_err(
        |e| format!("{}", e),
    )?;
    let def = desc.at_derivation_index(idx).map_err(|e| format!("{}", e))?;
    Ok(format!("{:#}", def))
}

} // verus!

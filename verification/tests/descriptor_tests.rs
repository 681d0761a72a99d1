//! Descriptors, compilation through the external domain library, and
//! script serialization, cross-checked against that library directly.

use std::str::FromStr;

use minsc::ast::Assignment;
use minsc::{run, Descriptor, Error, Expr, Ident, Stmt, Value};

const XPUB: &str = "xpub6BgBgsespWvERF3LHQu6CnqdvfEvtMcQjYrcRzx53QJjSxarj2afYWcLteoGVky7D3UKDP9QyrLprQ3VCECoY49yfdDEHGCtMMj92pReUsQ";

fn ident(s: &str) -> Ident {
    Ident(s.to_string())
}

fn bind_key(name: &str) -> Stmt {
    Stmt::Assign(vec![Assignment {
        lhs: ident(name),
        rhs: Expr::PubKey(XPUB.to_string()),
    }])
}

fn pk_call(name: &str) -> Expr {
    Expr::Call(ident("pk"), vec![Expr::Ident(ident(name))])
}

/// What the external compiler itself makes of `pk(XPUB)`.
fn compiled_pk_text() -> String {
    miniscript::policy::concrete::Policy::<miniscript::DescriptorPublicKey>::from_str(&format!(
        "pk({})",
        XPUB
    ))
    .unwrap()
    .compile::<miniscript::Segwitv0>()
    .unwrap()
    .to_string()
}

#[test]
fn wsh_wraps_a_compiled_policy() {
    // `wsh(pk(A))` yields a descriptor wrapping the single-key policy's
    // compiled script.
    let prog = Expr::Block(
        vec![bind_key("A")],
        Some(Box::new(Expr::Call(ident("wsh"), vec![pk_call("A")]))),
    );
    match run(prog).unwrap() {
        Value::Descriptor(Descriptor::Wsh(inner)) => {
            assert_eq!(inner, compiled_pk_text());
        }
        other => panic!("expected a wsh descriptor, got {:?}", other),
    }
}

#[test]
fn miniscript_builtin_compiles_policies() {
    let prog = Expr::Block(
        vec![bind_key("A")],
        Some(Box::new(Expr::Call(ident("miniscript"), vec![pk_call("A")]))),
    );
    match run(prog).unwrap() {
        Value::Miniscript(ms) => assert_eq!(ms.0, compiled_pk_text()),
        other => panic!("expected a miniscript, got {:?}", other),
    }
}

#[test]
fn sh_wraps_wsh_and_wpkh_only() {
    // `sh(wsh(pk(A)))` further wraps the descriptor.
    let prog = Expr::Block(
        vec![bind_key("A")],
        Some(Box::new(Expr::Call(
            ident("sh"),
            vec![Expr::Call(ident("wsh"), vec![pk_call("A")])],
        ))),
    );
    match run(prog).unwrap() {
        Value::Descriptor(Descriptor::ShWsh(inner)) => {
            assert_eq!(inner, compiled_pk_text());
        }
        other => panic!("expected sh(wsh(...)), got {:?}", other),
    }
    let wpkh = Expr::Block(
        vec![bind_key("A")],
        Some(Box::new(Expr::Call(
            ident("sh"),
            vec![Expr::Call(ident("wpkh"), vec![Expr::Ident(ident("A"))])],
        ))),
    );
    match run(wpkh).unwrap() {
        Value::Descriptor(Descriptor::ShWpkh(inner)) => assert_eq!(inner, XPUB),
        other => panic!("expected sh(wpkh(...)), got {:?}", other),
    }
}

#[test]
fn sh_of_a_bare_policy_is_the_sh_misuse_error() {
    // `sh(pk(A))`: the bare key policy was never wrapped, so this fails.
    let prog = Expr::Block(
        vec![bind_key("A")],
        Some(Box::new(Expr::Call(ident("sh"), vec![pk_call("A")]))),
    );
    match run(prog) {
        Err(Error::CallError(name, inner)) => {
            assert_eq!(name, ident("sh"));
            assert_eq!(*inner, Error::InvalidShUse);
        }
        other => panic!("expected InvalidShUse, got {:?}", other),
    }
}

#[test]
fn sh_of_an_sh_descriptor_is_rejected_too() {
    let prog = Expr::Block(
        vec![bind_key("A")],
        Some(Box::new(Expr::Call(
            ident("sh"),
            vec![Expr::Call(
                ident("sh"),
                vec![Expr::Call(ident("wsh"), vec![pk_call("A")])],
            )],
        ))),
    );
    match run(prog) {
        Err(Error::CallError(_, inner)) => assert_eq!(*inner, Error::InvalidShUse),
        other => panic!("expected InvalidShUse, got {:?}", other),
    }
}

#[test]
fn script_pubkey_matches_the_domain_library() {
    let prog = Expr::Block(
        vec![bind_key("A")],
        Some(Box::new(Expr::Call(
            ident("script_pubkey"),
            vec![Expr::Call(ident("wsh"), vec![pk_call("A")])],
        ))),
    );
    let direct = miniscript::Descriptor::<miniscript::DescriptorPublicKey>::from_str(&format!(
        "wsh({})",
        compiled_pk_text()
    ))
    .unwrap()
    .at_derivation_index(0)
    .unwrap()
    .script_pubkey()
    .into_bytes();
    match run(prog).unwrap() {
        Value::Script(b) => assert_eq!(b, direct),
        other => panic!("expected a script, got {:?}", other),
    }
}

#[test]
fn explicit_script_matches_the_domain_library() {
    let prog = Expr::Block(
        vec![bind_key("A")],
        Some(Box::new(Expr::Call(
            ident("explicit_script"),
            vec![Expr::Call(ident("wsh"), vec![pk_call("A")])],
        ))),
    );
    let direct = miniscript::Descriptor::<miniscript::DescriptorPublicKey>::from_str(&format!(
        "wsh({})",
        compiled_pk_text()
    ))
    .unwrap()
    .at_derivation_index(0)
    .unwrap()
    .explicit_script()
    .unwrap()
    .into_bytes();
    match run(prog).unwrap() {
        Value::Script(b) => assert_eq!(b, direct),
        other => panic!("expected a script, got {:?}", other),
    }
}

#[test]
fn wsh_of_a_raw_script_is_its_p2wsh_script_pubkey() {
    // rawscript turns bytes into a script; wsh of a script value is the
    // pay-to-witness-script-hash output script.
    let prog = Expr::Call(
        ident("wsh"),
        vec![Expr::Call(
            ident("rawscript"),
            vec![Expr::Hash("51".to_string())],
        )],
    );
    let direct = miniscript::bitcoin::Script::from_bytes(&[0x51])
        .to_p2wsh()
        .into_bytes();
    match run(prog).unwrap() {
        Value::Script(b) => {
            assert_eq!(b.len(), 34);
            assert_eq!(b, direct);
        }
        other => panic!("expected a script, got {:?}", other),
    }
}

#[test]
fn a_policy_is_accepted_anywhere_a_descriptor_is_required() {
    // script_pubkey coerces policy -> compiled script -> wsh descriptor.
    let via_policy = Expr::Block(
        vec![bind_key("A")],
        Some(Box::new(Expr::Call(
            ident("script_pubkey"),
            vec![pk_call("A")],
        ))),
    );
    let via_wsh = Expr::Block(
        vec![bind_key("A")],
        Some(Box::new(Expr::Call(
            ident("script_pubkey"),
            vec![Expr::Call(ident("wsh"), vec![pk_call("A")])],
        ))),
    );
    assert_eq!(run(via_policy).unwrap(), run(via_wsh).unwrap());
}

#[test]
fn descriptor_derivation_takes_one_step() {
    // A wildcard key inside a wsh descriptor, derived at one child index.
    let desc = Expr::Call(
        ident("wsh"),
        vec![Expr::Call(
            ident("pk"),
            vec![Expr::PubKey(format!("{}/*", XPUB))],
        )],
    );
    let prog = Expr::ChildDerive(Box::new(desc), vec![Expr::Number(7)], false);
    match run(prog).unwrap() {
        Value::Descriptor(Descriptor::Wsh(inner)) => {
            assert!(inner.contains("/7"), "derived text: {}", inner);
            assert!(!inner.contains('*'), "derived text: {}", inner);
        }
        other => panic!("expected a derived wsh descriptor, got {:?}", other),
    }
}

#[test]
fn descriptor_derivation_rejects_wildcards_and_long_paths() {
    let desc = || {
        Expr::Call(
            ident("wsh"),
            vec![Expr::Call(
                ident("pk"),
                vec![Expr::PubKey(format!("{}/*", XPUB))],
            )],
        )
    };
    let wild = Expr::ChildDerive(Box::new(desc()), vec![Expr::Number(0)], true);
    assert!(matches!(run(wild), Err(Error::InvalidDescriptorDerivation)));
    let long = Expr::ChildDerive(
        Box::new(desc()),
        vec![Expr::Number(0), Expr::Number(1)],
        false,
    );
    assert!(matches!(run(long), Err(Error::InvalidDescriptorDerivation)));
}

#[test]
fn conversion_errors_name_the_offending_kind() {
    // pk of a non-key.
    match run(Expr::Call(ident("pk"), vec![Expr::Number(1)])) {
        Err(Error::CallError(_, inner)) => assert!(matches!(*inner, Error::NotPubKey(_))),
        other => panic!("expected NotPubKey, got {:?}", other),
    }
    // miniscript of a value that is neither policy nor miniscript.
    match run(Expr::Call(ident("miniscript"), vec![Expr::Number(1)])) {
        Err(Error::CallError(_, inner)) => {
            assert!(matches!(*inner, Error::NotMiniscriptLike(_)))
        }
        other => panic!("expected NotMiniscriptLike, got {:?}", other),
    }
    // script_pubkey of a value that is not descriptor-like.
    match run(Expr::Call(ident("script_pubkey"), vec![Expr::Number(1)])) {
        Err(Error::CallError(_, inner)) => {
            assert!(matches!(*inner, Error::NotDescriptorLike(_)))
        }
        other => panic!("expected NotDescriptorLike, got {:?}", other),
    }
}

#[test]
fn descriptor_derivation_at_a_hardened_index_fails() {
    // The external library refuses indices of 2^31 and above.
    let desc = Expr::Call(
        ident("wsh"),
        vec![Expr::Call(
            ident("pk"),
            vec![Expr::PubKey(format!("{}/*", XPUB))],
        )],
    );
    let prog = Expr::ChildDerive(
        Box::new(desc),
        vec![Expr::Number(0x8000_0000)],
        false,
    );
    assert!(matches!(run(prog), Err(Error::DescriptorError(_))));
}

#[test]
fn unsafe_policies_fail_compilation() {
    // The external compiler rejects a top-level policy that is not safe:
    // an `or` whose two branches are bare time-locks has no key at all.
    let prog = Expr::Or(vec![
        Expr::Call(ident("older"), vec![Expr::Number(1)]),
        Expr::Call(ident("older"), vec![Expr::Number(2)]),
    ]);
    let wrapped = Expr::Call(ident("wsh"), vec![prog]);
    match run(wrapped) {
        Err(Error::CallError(_, inner)) => {
            assert!(matches!(*inner, Error::CompilerError(_)))
        }
        other => panic!("expected CompilerError, got {:?}", other),
    }
}

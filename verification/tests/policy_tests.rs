//! Policy construction: the boolean desugaring, thresholds, time-locks,
//! hash locks and conversions.

use std::rc::Rc;

use minsc::ast::{Assignment, FnDef};
use minsc::{compile, run, Error, Expr, Ident, Policy, PubKey, Stmt, Value};

const XPUB: &str = "xpub6BgBgsespWvERF3LHQu6CnqdvfEvtMcQjYrcRzx53QJjSxarj2afYWcLteoGVky7D3UKDP9QyrLprQ3VCECoY49yfdDEHGCtMMj92pReUsQ";

fn ident(s: &str) -> Ident {
    Ident(s.to_string())
}

fn key(text: &str) -> PubKey {
    PubKey {
        base: text.to_string(),
        wildcard: false,
        xpub: true,
    }
}

fn pk_call(name: &str) -> Expr {
    Expr::Call(ident("pk"), vec![Expr::Ident(ident(name))])
}

fn bind_key(name: &str) -> Stmt {
    Stmt::Assign(vec![Assignment {
        lhs: ident(name),
        rhs: Expr::PubKey(XPUB.to_string()),
    }])
}

#[test]
fn two_argument_and_delegates_to_the_pairwise_builtin() {
    // `pk(A) && older(144)` with `A` bound to a valid key gives the
    // conjunction of the key policy and the time-lock.
    let prog = Expr::Block(
        vec![bind_key("A")],
        Some(Box::new(Expr::And(vec![
            pk_call("A"),
            Expr::Call(ident("older"), vec![Expr::Number(144)]),
        ]))),
    );
    let expected = Policy::And(vec![Policy::Key(key(XPUB)), Policy::Older(144)]);
    assert_eq!(run(prog).unwrap(), Value::Policy(expected));
}

#[test]
fn two_argument_or_keeps_its_pairwise_form() {
    let prog = Expr::Block(
        vec![bind_key("A")],
        Some(Box::new(Expr::Or(vec![pk_call("A"), pk_call("A")]))),
    );
    let expected = Policy::Or(vec![
        (1, Policy::Key(key(XPUB))),
        (1, Policy::Key(key(XPUB))),
    ]);
    assert_eq!(run(prog).unwrap(), Value::Policy(expected));
}

#[test]
fn probability_weights_survive_binary_or() {
    // `likely@pk(A) || pk(A)`: the weighted branch keeps its weight.
    let prog = Expr::Block(
        vec![bind_key("A")],
        Some(Box::new(Expr::Or(vec![
            Expr::WithProb(
                Box::new(Expr::Ident(ident("likely"))),
                Box::new(pk_call("A")),
            ),
            pk_call("A"),
        ]))),
    );
    let expected = Policy::Or(vec![
        (10, Policy::Key(key(XPUB))),
        (1, Policy::Key(key(XPUB))),
    ]);
    assert_eq!(run(prog).unwrap(), Value::Policy(expected));
}

#[test]
fn nary_or_desugars_to_threshold_of_one() {
    // `or(pk(A), pk(B), pk(C))` evaluates to the same policy as
    // `thresh(1, [pk(A), pk(B), pk(C)])`.
    let nary = Expr::Block(
        vec![bind_key("A")],
        Some(Box::new(Expr::Or(vec![
            pk_call("A"),
            pk_call("A"),
            pk_call("A"),
        ]))),
    );
    let threshed = Expr::Block(
        vec![bind_key("A")],
        Some(Box::new(Expr::Thresh(
            Box::new(Expr::Number(1)),
            Box::new(Expr::Array(vec![
                pk_call("A"),
                pk_call("A"),
                pk_call("A"),
            ])),
        ))),
    );
    let left = run(nary).unwrap();
    let right = run(threshed).unwrap();
    assert_eq!(left, right);
    let expected = Policy::Threshold(
        1,
        vec![
            Policy::Key(key(XPUB)),
            Policy::Key(key(XPUB)),
            Policy::Key(key(XPUB)),
        ],
    );
    assert_eq!(left, Value::Policy(expected));
}

#[test]
fn nary_and_desugars_to_threshold_of_all() {
    let prog = Expr::Block(
        vec![bind_key("A")],
        Some(Box::new(Expr::And(vec![
            pk_call("A"),
            pk_call("A"),
            pk_call("A"),
        ]))),
    );
    let expected = Policy::Threshold(
        3,
        vec![
            Policy::Key(key(XPUB)),
            Policy::Key(key(XPUB)),
            Policy::Key(key(XPUB)),
        ],
    );
    assert_eq!(run(prog).unwrap(), Value::Policy(expected));
}

#[test]
fn thresh_accepts_an_array_or_spread_arguments() {
    let spread = Expr::Block(
        vec![bind_key("A")],
        Some(Box::new(Expr::Call(
            ident("thresh"),
            vec![Expr::Number(2), pk_call("A"), pk_call("A")],
        ))),
    );
    let packed = Expr::Block(
        vec![bind_key("A")],
        Some(Box::new(Expr::Call(
            ident("thresh"),
            vec![
                Expr::Number(2),
                Expr::Array(vec![pk_call("A"), pk_call("A")]),
            ],
        ))),
    );
    let left = run(spread).unwrap();
    assert_eq!(left, run(packed).unwrap());
    let expected = Policy::Threshold(
        2,
        vec![Policy::Key(key(XPUB)), Policy::Key(key(XPUB))],
    );
    assert_eq!(left, Value::Policy(expected));
}

#[test]
fn after_builds_an_absolute_time_lock() {
    let r = run(Expr::Call(ident("after"), vec![Expr::Number(800000)]));
    assert_eq!(r.unwrap(), Value::Policy(Policy::After(800000)));
}

#[test]
fn hash_builtins_validate_digest_length() {
    let h32 = "11".repeat(32);
    let r = run(Expr::Call(ident("sha256"), vec![Expr::Hash(h32.clone())]));
    assert_eq!(
        r.unwrap(),
        Value::Policy(Policy::Sha256(vec![0x11; 32]))
    );
    let r2 = run(Expr::Call(ident("hash256"), vec![Expr::Hash(h32)]));
    assert_eq!(
        r2.unwrap(),
        Value::Policy(Policy::Hash256(vec![0x11; 32]))
    );
    let h20 = "22".repeat(20);
    let r3 = run(Expr::Call(ident("ripemd160"), vec![Expr::Hash(h20.clone())]));
    assert_eq!(
        r3.unwrap(),
        Value::Policy(Policy::Ripemd160(vec![0x22; 20]))
    );
    let r4 = run(Expr::Call(ident("hash160"), vec![Expr::Hash(h20)]));
    assert_eq!(
        r4.unwrap(),
        Value::Policy(Policy::Hash160(vec![0x22; 20]))
    );
    // A 20-byte digest is not a SHA-256 digest.
    let short = run(Expr::Call(
        ident("sha256"),
        vec![Expr::Hash("22".repeat(20))],
    ));
    match short {
        Err(Error::CallError(_, inner)) => assert!(matches!(*inner, Error::NotHash(_))),
        other => panic!("expected NotHash, got {:?}", other),
    }
}

#[test]
fn all_and_any_fold_arrays() {
    let arr = |n: usize| {
        Expr::Array(
            (0..n)
                .map(|_| Expr::Call(ident("older"), vec![Expr::Number(10)]))
                .collect(),
        )
    };
    let a = run(Expr::Call(ident("all"), vec![arr(2)]));
    assert_eq!(
        a.unwrap(),
        Value::Policy(Policy::Threshold(
            2,
            vec![Policy::Older(10), Policy::Older(10)]
        ))
    );
    let o = run(Expr::Call(ident("any"), vec![arr(2)]));
    assert_eq!(
        o.unwrap(),
        Value::Policy(Policy::Threshold(
            1,
            vec![Policy::Older(10), Policy::Older(10)]
        ))
    );
}

#[test]
fn a_bare_array_behaves_like_all_where_a_policy_is_required() {
    let arr = Expr::Array(vec![
        Expr::Call(ident("older"), vec![Expr::Number(5)]),
        Expr::Call(ident("older"), vec![Expr::Number(6)]),
    ]);
    let direct = compile(arr).unwrap();
    let folded = Expr::Call(
        ident("all"),
        vec![Expr::Array(vec![
            Expr::Call(ident("older"), vec![Expr::Number(5)]),
            Expr::Call(ident("older"), vec![Expr::Number(6)]),
        ])],
    );
    let via_all = compile(folded).unwrap();
    assert_eq!(direct, via_all);
    assert_eq!(
        direct,
        Policy::Threshold(2, vec![Policy::Older(5), Policy::Older(6)])
    );
}

#[test]
fn compile_narrows_the_final_value_to_a_policy() {
    let prog = Expr::Block(
        vec![bind_key("A")],
        Some(Box::new(pk_call("A"))),
    );
    assert_eq!(compile(prog).unwrap(), Policy::Key(key(XPUB)));
    // A number is not policy-like.
    assert!(matches!(
        compile(Expr::Number(1)),
        Err(Error::NotPolicyLike(_))
    ));
}

#[test]
fn user_definitions_compose_with_builtins() {
    // A convenience combinator written in the language itself.
    let both = FnDef {
        ident: ident("both"),
        args: Rc::new(vec![ident("a"), ident("b")]),
        body: Rc::new(Expr::And(vec![
            Expr::Ident(ident("a")),
            Expr::Ident(ident("b")),
        ])),
    };
    let prog = Expr::Block(
        vec![bind_key("A"), Stmt::FnDef(both)],
        Some(Box::new(Expr::Call(
            ident("both"),
            vec![pk_call("A"), Expr::Call(ident("older"), vec![Expr::Number(1)])],
        ))),
    );
    let expected = Policy::And(vec![Policy::Key(key(XPUB)), Policy::Older(1)]);
    assert_eq!(run(prog).unwrap(), Value::Policy(expected));
}

#[test]
fn prob_rejects_non_numbers() {
    let bad = run(Expr::Call(
        ident("prob"),
        vec![
            Expr::Call(ident("older"), vec![Expr::Number(1)]),
            Expr::Call(ident("older"), vec![Expr::Number(1)]),
        ],
    ));
    match bad {
        Err(Error::CallError(_, inner)) => assert!(matches!(*inner, Error::NotNumber(_))),
        other => panic!("expected NotNumber, got {:?}", other),
    }
}

#[test]
fn older_rejects_numbers_beyond_32_bits() {
    let bad = run(Expr::Call(
        ident("older"),
        vec![Expr::Number(5_000_000_000)],
    ));
    match bad {
        Err(Error::CallError(_, inner)) => {
            assert_eq!(*inner, Error::InvalidArguments)
        }
        other => panic!("expected InvalidArguments, got {:?}", other),
    }
}

//! Evaluator behaviour: atoms, scoping, closures, arrays, blocks.

use std::rc::Rc;

use minsc::ast::{Assignment, Duration, FnDef};
use minsc::{run, Error, Evaluate, Execute, Expr, Ident, Scope, Stmt, Value};

const XPUB: &str = "xpub6BgBgsespWvERF3LHQu6CnqdvfEvtMcQjYrcRzx53QJjSxarj2afYWcLteoGVky7D3UKDP9QyrLprQ3VCECoY49yfdDEHGCtMMj92pReUsQ";
const SINGLE: &str = "02d7924d4f7d43ea965a465ae3095ff41131e5946f3c85f79e44adbcf8e27e080e";

fn ident(s: &str) -> Ident {
    Ident(s.to_string())
}

fn assign(name: &str, rhs: Expr) -> Stmt {
    Stmt::Assign(vec![Assignment { lhs: ident(name), rhs }])
}

fn fndef(name: &str, params: Vec<&str>, body: Expr) -> Stmt {
    Stmt::FnDef(FnDef {
        ident: ident(name),
        args: Rc::new(params.into_iter().map(ident).collect()),
        body: Rc::new(body),
    })
}

#[test]
fn number_atom_evaluates_to_itself() {
    assert_eq!(run(Expr::Number(42)).unwrap(), Value::Number(42));
}

#[test]
fn datetime_and_duration_copy_through() {
    assert_eq!(
        run(Expr::DateTime("2030-01-01".to_string())).unwrap(),
        Value::DateTime("2030-01-01".to_string())
    );
    assert_eq!(
        run(Expr::Duration(Duration("2 days".to_string()))).unwrap(),
        Value::Duration(Duration("2 days".to_string()))
    );
}

#[test]
fn hash_atom_decodes_hex() {
    assert_eq!(
        run(Expr::Hash("00ff".to_string())).unwrap(),
        Value::Hash(vec![0x00, 0xff])
    );
    match run(Expr::Hash("0g".to_string())) {
        Err(Error::InvalidHex(s)) => assert_eq!(s, "0g"),
        other => panic!("expected InvalidHex, got {:?}", other),
    }
    match run(Expr::Hash("abc".to_string())) {
        Err(Error::InvalidHex(_)) => {}
        other => panic!("expected InvalidHex, got {:?}", other),
    }
}

#[test]
fn pubkey_atom_parses_xpub_and_single() {
    match run(Expr::PubKey(XPUB.to_string())).unwrap() {
        Value::PubKey(k) => {
            assert_eq!(k.base, XPUB);
            assert!(k.xpub);
            assert!(!k.wildcard);
        }
        other => panic!("expected a key, got {:?}", other),
    }
    match run(Expr::PubKey(format!("{}/*", XPUB))).unwrap() {
        Value::PubKey(k) => {
            assert_eq!(k.base, XPUB);
            assert!(k.xpub);
            assert!(k.wildcard);
        }
        other => panic!("expected a key, got {:?}", other),
    }
    match run(Expr::PubKey(SINGLE.to_string())).unwrap() {
        Value::PubKey(k) => {
            assert!(!k.xpub);
            assert!(!k.wildcard);
        }
        other => panic!("expected a key, got {:?}", other),
    }
    assert!(matches!(
        run(Expr::PubKey("not-a-key".to_string())),
        Err(Error::InvalidPubKey(_))
    ));
}

#[test]
fn variable_not_found() {
    assert!(matches!(
        run(Expr::Ident(ident("nobody"))),
        Err(Error::VarNotFound(_))
    ));
}

#[test]
fn function_not_found() {
    assert!(matches!(
        run(Expr::Call(ident("nobody"), vec![])),
        Err(Error::FnNotFound(_))
    ));
}

#[test]
fn unbound_call_fails_before_its_arguments_are_evaluated() {
    // The name is resolved first, so the unbound-function error wins over
    // an argument that would itself fail.
    let prog = Expr::Call(ident("nobody"), vec![Expr::Ident(ident("missing"))]);
    match run(prog) {
        Err(Error::FnNotFound(name)) => assert_eq!(name, ident("nobody")),
        other => panic!("expected FnNotFound, got {:?}", other),
    }
}

#[test]
fn calling_a_non_function_binding_is_function_not_found() {
    let prog = Expr::Block(
        vec![assign("x", Expr::Number(1))],
        Some(Box::new(Expr::Call(ident("x"), vec![]))),
    );
    assert!(matches!(run(prog), Err(Error::FnNotFound(_))));
}

#[test]
fn likely_literal_is_ten() {
    assert_eq!(run(Expr::Ident(ident("likely"))).unwrap(), Value::Number(10));
}

#[test]
fn array_literal_and_index() {
    // `[1,2,3][1]` evaluates to `2`.
    let arr = || Expr::Array(vec![Expr::Number(1), Expr::Number(2), Expr::Number(3)]);
    let ok = run(Expr::ArrayAccess(Box::new(arr()), Box::new(Expr::Number(1))));
    assert_eq!(ok.unwrap(), Value::Number(2));
}

#[test]
fn array_index_out_of_range() {
    // `[1,2,3][5]` fails with the bounds error.
    let arr = Expr::Array(vec![Expr::Number(1), Expr::Number(2), Expr::Number(3)]);
    let bad = run(Expr::ArrayAccess(Box::new(arr), Box::new(Expr::Number(5))));
    assert!(matches!(bad, Err(Error::ArrayIndexOutOfRange)));
}

#[test]
fn block_with_trailing_expression() {
    let prog = Expr::Block(
        vec![assign("x", Expr::Number(7))],
        Some(Box::new(Expr::Ident(ident("x")))),
    );
    assert_eq!(run(prog).unwrap(), Value::Number(7));
}

#[test]
fn block_without_return_value_and_without_main_fails() {
    let prog = Expr::Block(vec![assign("x", Expr::Number(7))], None);
    assert!(matches!(run(prog), Err(Error::NoReturnValue)));
}

#[test]
fn block_without_trailing_expression_invokes_main() {
    let prog = Expr::Block(
        vec![
            assign("x", Expr::Number(9)),
            fndef("main", vec![], Expr::Ident(ident("x"))),
        ],
        None,
    );
    assert_eq!(run(prog).unwrap(), Value::Number(9));
}

#[test]
fn block_with_trailing_expression_never_consults_main() {
    // `main` here would fail if invoked; the trailing expression wins.
    let prog = Expr::Block(
        vec![fndef("main", vec![], Expr::Ident(ident("no_such_binding")))],
        Some(Box::new(Expr::Number(3))),
    );
    assert_eq!(run(prog).unwrap(), Value::Number(3));
}

#[test]
fn closures_capture_their_defining_scope() {
    // A function defined inside a block reads an outer variable of that
    // block even when invoked after the block finished, from a different
    // calling scope that binds the same name differently.
    let inner_block = Expr::Block(
        vec![
            assign("x", Expr::Number(5)),
            fndef("f", vec![], Expr::Ident(ident("x"))),
        ],
        Some(Box::new(Expr::Ident(ident("f")))),
    );
    let prog = Expr::Block(
        vec![assign("x", Expr::Number(999)), assign("g", inner_block)],
        Some(Box::new(Expr::Call(ident("g"), vec![]))),
    );
    assert_eq!(run(prog).unwrap(), Value::Number(5));
}

#[test]
fn user_function_parameters_bind_in_order() {
    let prog = Expr::Block(
        vec![fndef("snd", vec!["a", "b"], Expr::Ident(ident("b")))],
        Some(Box::new(Expr::Call(
            ident("snd"),
            vec![Expr::Number(1), Expr::Number(2)],
        ))),
    );
    assert_eq!(run(prog).unwrap(), Value::Number(2));
}

#[test]
fn arity_mismatch_is_a_call_time_error() {
    let prog = Expr::Block(
        vec![fndef("one", vec!["a"], Expr::Ident(ident("a")))],
        Some(Box::new(Expr::Call(ident("one"), vec![]))),
    );
    match run(prog) {
        Err(Error::CallError(name, inner)) => {
            assert_eq!(name, ident("one"));
            assert_eq!(*inner, Error::InvalidArguments);
        }
        other => panic!("expected a wrapped arity error, got {:?}", other),
    }
}

#[test]
fn redefining_a_name_in_the_same_block_is_rejected() {
    let prog = Expr::Block(
        vec![assign("x", Expr::Number(1)), assign("x", Expr::Number(2))],
        Some(Box::new(Expr::Ident(ident("x")))),
    );
    assert!(matches!(run(prog), Err(Error::DuplicateBinding(_))));
}

#[test]
fn shadowing_a_builtin_in_a_child_scope_is_allowed() {
    let prog = Expr::Block(
        vec![assign("pk", Expr::Number(1))],
        Some(Box::new(Expr::Ident(ident("pk")))),
    );
    assert_eq!(run(prog).unwrap(), Value::Number(1));
}

#[test]
fn self_recursion_hits_the_depth_ceiling() {
    let prog = Expr::Block(
        vec![fndef("f", vec![], Expr::Call(ident("f"), vec![]))],
        Some(Box::new(Expr::Call(ident("f"), vec![]))),
    );
    let mut e = run(prog).unwrap_err();
    let mut depth = 0;
    while let Error::CallError(_, inner) = e {
        e = *inner;
        depth += 1;
    }
    assert!(depth > 0);
    assert_eq!(e, Error::RecursionLimit);
}

#[test]
fn errors_inside_calls_carry_the_call_trail() {
    let prog = Expr::Block(
        vec![fndef("f", vec![], Expr::Ident(ident("missing")))],
        Some(Box::new(Expr::Call(ident("f"), vec![]))),
    );
    match run(prog) {
        Err(Error::CallError(name, inner)) => {
            assert_eq!(name, ident("f"));
            assert_eq!(*inner, Error::VarNotFound(ident("missing")));
        }
        other => panic!("expected a wrapped error, got {:?}", other),
    }
}

#[test]
fn evaluate_trait_matches_run() {
    let mut scope = Scope::root();
    let r = Expr::Number(11).eval(&mut scope, 0, minsc::MAX_CALL_DEPTH);
    assert_eq!(r.unwrap(), Value::Number(11));
}

#[test]
fn execute_trait_binds_in_the_given_frame() {
    let mut scope = Scope::root();
    let st = assign("y", Expr::Number(4));
    st.exec(&mut scope, 0, minsc::MAX_CALL_DEPTH).unwrap();
    assert_eq!(scope.get(0, &ident("y")), Some(Value::Number(4)));
}

#[test]
fn bootstrap_extends_the_root_scope_with_language_definitions() {
    // A library program written in the language itself, run once against
    // a fresh root scope, adds reusable definitions.
    let mut scope = Scope::root();
    let prog = vec![fndef("first", vec!["a", "b"], Expr::Ident(ident("a")))];
    minsc::stdlib::bootstrap(&mut scope, &prog, minsc::MAX_CALL_DEPTH).unwrap();
    let call = Expr::Call(ident("first"), vec![Expr::Number(8), Expr::Number(9)]);
    assert_eq!(
        call.eval(&mut scope, 0, minsc::MAX_CALL_DEPTH).unwrap(),
        Value::Number(8)
    );
}

#[test]
fn repeat_builds_arrays() {
    // With a function producer, each index is handed to the callback.
    let prog = Expr::Block(
        vec![fndef("id", vec!["i"], Expr::Ident(ident("i")))],
        Some(Box::new(Expr::Call(
            ident("repeat"),
            vec![Expr::Number(3), Expr::Ident(ident("id"))],
        ))),
    );
    match run(prog).unwrap() {
        Value::Array(arr) => {
            assert_eq!(
                arr.0,
                vec![Value::Number(0), Value::Number(1), Value::Number(2)]
            );
        }
        other => panic!("expected an array, got {:?}", other),
    }
    // With a plain producer, the value repeats unchanged.
    match run(Expr::Call(
        ident("repeat"),
        vec![Expr::Number(2), Expr::Number(7)],
    ))
    .unwrap()
    {
        Value::Array(arr) => assert_eq!(arr.0, vec![Value::Number(7), Value::Number(7)]),
        other => panic!("expected an array, got {:?}", other),
    }
}

#[test]
fn iif_picks_by_condition_and_invokes_thunks() {
    let t = run(Expr::Call(
        ident("iif"),
        vec![
            Expr::Ident(ident("true")),
            Expr::Number(1),
            Expr::Number(2),
        ],
    ));
    assert_eq!(t.unwrap(), Value::Number(1));
    let f = run(Expr::Call(
        ident("iif"),
        vec![
            Expr::Ident(ident("false")),
            Expr::Number(1),
            Expr::Number(2),
        ],
    ));
    assert_eq!(f.unwrap(), Value::Number(2));
    // A function alternative is invoked lazily with no arguments.
    let lazy = Expr::Block(
        vec![fndef("th", vec![], Expr::Number(42))],
        Some(Box::new(Expr::Call(
            ident("iif"),
            vec![
                Expr::Ident(ident("true")),
                Expr::Ident(ident("th")),
                Expr::Number(0),
            ],
        ))),
    );
    assert_eq!(run(lazy).unwrap(), Value::Number(42));
}

#[test]
fn len_counts_array_elements() {
    let prog = Expr::Call(
        ident("len"),
        vec![Expr::Array(vec![Expr::Number(1), Expr::Number(2)])],
    );
    assert_eq!(run(prog).unwrap(), Value::Number(2));
    match run(Expr::Call(ident("len"), vec![Expr::Number(1)])) {
        Err(Error::CallError(_, inner)) => {
            assert!(matches!(*inner, Error::NotArray(_)))
        }
        other => panic!("expected NotArray, got {:?}", other),
    }
}

#[test]
fn le64_renders_little_endian_bytes() {
    let r = run(Expr::Call(ident("le64"), vec![Expr::Number(5)]));
    assert_eq!(r.unwrap(), Value::Hash(5u64.to_le_bytes().to_vec()));
    let r2 = run(Expr::Call(ident("le64"), vec![Expr::Number(0x0102)]));
    assert_eq!(r2.unwrap(), Value::Hash(0x0102u64.to_le_bytes().to_vec()));
}

#[test]
fn child_derivation_on_keys() {
    // Successive non-hardened steps append to the key text; the wildcard
    // mark follows the expression.
    let prog = Expr::ChildDerive(
        Box::new(Expr::PubKey(XPUB.to_string())),
        vec![Expr::Number(0), Expr::Number(1)],
        false,
    );
    match run(prog).unwrap() {
        Value::PubKey(k) => {
            assert_eq!(k.base, format!("{}/0/1", XPUB));
            assert!(!k.wildcard);
        }
        other => panic!("expected a key, got {:?}", other),
    }
    let wild = Expr::ChildDerive(Box::new(Expr::PubKey(XPUB.to_string())), vec![], true);
    match run(wild).unwrap() {
        Value::PubKey(k) => {
            assert_eq!(k.base, XPUB);
            assert!(k.wildcard);
        }
        other => panic!("expected a key, got {:?}", other),
    }
    // A single (non-extendable) key cannot be derived from.
    let single = Expr::ChildDerive(
        Box::new(Expr::PubKey(SINGLE.to_string())),
        vec![Expr::Number(0)],
        false,
    );
    assert!(matches!(run(single), Err(Error::InvalidSingleDerivation)));
}

#[test]
fn network_literals_narrow_to_network_tags() {
    let v = run(Expr::Ident(ident("regtest"))).unwrap();
    assert_eq!(v.into_network().unwrap(), minsc::Network::Regtest);
    assert!(matches!(
        Value::Number(1).into_network(),
        Err(Error::NotNetwork(_))
    ));
}

#[test]
fn render_gives_canonical_text() {
    assert_eq!(run(Expr::Number(1234)).unwrap().render(), "1234");
    assert_eq!(
        run(Expr::Hash("00ff".to_string())).unwrap().render(),
        "00ff"
    );
    let arr = run(Expr::Array(vec![Expr::Number(1), Expr::Number(2)])).unwrap();
    assert_eq!(arr.render(), "[\n  1,\n  2\n]");
    assert_eq!(
        run(Expr::Ident(ident("testnet"))).unwrap().render(),
        "testnet"
    );
}

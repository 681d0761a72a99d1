//! The builtin library and bootstrap: native functions, boolean and
//! network literals, all attached once to a fresh root scope.

use vstd::prelude::*;
use crate::ast::Ident;
use crate::domain::Network;
use crate::error::{Error, ErrorM};
use crate::function::{Builtin, Function};
use crate::runtime::{
    call_fn, frames_preserved, lemma_values_view, value_view, values_view, Value, ValueM,
};
use crate::scope::{scope_wf, Scope};

pub mod miniscript;

verus! {

broadcast use vstd::std_specs::vec::group_vec_axioms;

/// 256 to the `k`-th power.
pub open spec fn pow256(k: nat) -> nat
    decreases k,
{
    if k == 0 {
        1
    } else {
        256 * pow256((k - 1) as nat)
    }
}

/// The 8 little-endian bytes of a number.
pub open spec fn le64_rep(n: int) -> Seq<u8> {
    Seq::new(8, |i: int| ((n / pow256(i as nat) as int) % 256) as u8)
}

/// The result of the `len` builtin: the length of its one array argument.
pub open spec fn builtin_len(args: Seq<ValueM>) -> Result<ValueM, ErrorM> {
    if args.len() != 1 {
        Err(ErrorM::InvalidArguments)
    } else {
        match args[0] {
            ValueM::Array(els) => Ok(ValueM::Number(els.len() as int)),
            v => Err(ErrorM::NotArray(v)),
        }
    }
}

/// The result of the `rawscript` builtin: its one raw-bytes argument as a
/// script value.
pub open spec fn builtin_rawscript(args: Seq<ValueM>) -> Result<ValueM, ErrorM> {
    if args.len() != 1 {
        Err(ErrorM::InvalidArguments)
    } else {
        match args[0] {
            ValueM::Hash(b) => Ok(ValueM::Script(b)),
            v => Err(ErrorM::NotHash(v)),
        }
    }
}

/// The result of the `le64` builtin: one number that fits a signed 64-bit
/// value, as its 8 little-endian bytes.
pub open spec fn builtin_le64(args: Seq<ValueM>) -> Result<ValueM, ErrorM> {
    if args.len() != 1 {
        Err(ErrorM::InvalidArguments)
    } else {
        match args[0] {
            ValueM::Number(n) => if n <= i64::MAX {
                Ok(ValueM::Hash(le64_rep(n)))
            } else {
                Err(ErrorM::InvalidArguments)
            },
            v => Err(ErrorM::NotNumber(v)),
        }
    }
}

/// Whether a builtin's whole behaviour is a function of its arguments.
/// `repeat` and `iif` may invoke callback arguments and are not.
pub open spec fn is_pure_builtin(b: Builtin) -> bool {
    !(b is Repeat) && !(b is Iif)
}

/// What each builtin returns for given argument values. For the two
/// callback-invoking builtins nothing is pinned here; their own contracts
/// speak for them.
pub open spec fn builtin_matches(b: Builtin, args: Seq<ValueM>, r: Result<ValueM, ErrorM>) -> bool {
    match b {
        Builtin::Or => r == self::miniscript::builtin_or(args),
        Builtin::And => r == self::miniscript::builtin_and(args),
        Builtin::Thresh => r == self::miniscript::builtin_thresh(args),
        Builtin::Older => r == self::miniscript::builtin_older(args),
        Builtin::After => r == self::miniscript::builtin_after(args),
        Builtin::Pk => r == self::miniscript::builtin_pk(args),
        Builtin::Sha256 => r == self::miniscript::builtin_hash(args, 32, Builtin::Sha256),
        Builtin::Hash256 => r == self::miniscript::builtin_hash(args, 32, Builtin::Hash256),
        Builtin::Ripemd160 => r == self::miniscript::builtin_hash(args, 20, Builtin::Ripemd160),
        Builtin::Hash160 => r == self::miniscript::builtin_hash(args, 20, Builtin::Hash160),
        Builtin::Miniscript => self::miniscript::miniscript_matches(args, r),
        Builtin::Wpkh => r == self::miniscript::builtin_wpkh(args),
        Builtin::Wsh => self::miniscript::wsh_matches(args, r),
        Builtin::Sh => r == self::miniscript::builtin_sh(args),
        Builtin::ScriptPubkey => self::miniscript::script_pubkey_matches(args, r),
        Builtin::ExplicitScript => self::miniscript::explicit_script_matches(args, r),
        Builtin::All => r == self::miniscript::builtin_all(args),
        Builtin::Any => r == self::miniscript::builtin_any(args),
        Builtin::Prob => r == self::miniscript::builtin_prob(args),
        Builtin::Len => r == builtin_len(args),
        Builtin::Rawscript => r == builtin_rawscript(args),
        Builtin::Le64 => r == builtin_le64(args),
        Builtin::Repeat => true,
        Builtin::Iif => true,
    }
}

/// The length of the one array argument.
pub fn len(args: Vec<Value>) -> (r: Result<Value, Error>)
    ensures
        r matches Ok(v) ==> builtin_len(values_view(args@)) == Ok::<ValueM, ErrorM>(v@),
        r matches Err(e) ==> builtin_len(values_view(args@)) == Err::<ValueM, ErrorM>(e@),
{
    proof {
        lemma_values_view(args@);
    }
    if args.len() != 1 {
        return Err(Error::InvalidArguments);
    }
    match args[0].duplicate().into_array_elements() {
        Ok(els) => {
            proof {
                lemma_values_view(els@);
            }
            Ok(Value::Number(els.len()))
        },
        Err(e) => Err(e),
    }
}

/// Turns raw bytes into a script value.
pub fn rawscript(args: Vec<Value>) -> (r: Result<Value, Error>)
    ensures
        r matches Ok(v) ==> builtin_rawscript(values_view(args@)) == Ok::<ValueM, ErrorM>(v@),
        r matches Err(e) ==> builtin_rawscript(values_view(args@)) == Err::<ValueM, ErrorM>(e@),
{
    proof {
        lemma_values_view(args@);
    }
    if args.len() != 1 {
        return Err(Error::InvalidArguments);
    }
    match args[0].duplicate().into_bytes() {
        Ok(b) => Ok(Value::Script(b)),
        Err(e) => Err(e),
    }
}

/// The 8 little-endian bytes of one number.
#[verifier::loop_isolation(false)]
pub fn le64(args: Vec<Value>) -> (r: Result<Value, Error>)
    ensures
        r matches Ok(v) ==> builtin_le64(values_view(args@)) == Ok::<ValueM, ErrorM>(v@),
        r matches Err(e) ==> builtin_le64(values_view(args@)) == Err::<ValueM, ErrorM>(e@),
{
    proof {
        lemma_values_view(args@);
    }
    if args.len() != 1 {
        return Err(Error::InvalidArguments);
    }
    let n = match args[0].duplicate().into_usize() {
        Ok(n) => n,
        Err(e) => {
            return Err(e);
        },
    };
    if (n as u64) > i64::MAX as u64 {
        return Err(Error::InvalidArguments);
    }
    let mut out: Vec<u8> = Vec::new();
    let mut cur: usize = n;
    let mut i: usize = 0;
    while i < 8
        invariant
            i <= 8,
            out@.len() == i as int,
            cur as int == n as int / pow256(i as nat) as int,
            pow256(i as nat) >= 1,
            forall|j: int| 0 <= j < i ==> out@[j] == le64_rep(n as int)[j],
        decreases 8 - i,
    {
        out.push((cur % 256) as u8);
        proof {
            assert(pow256((i + 1) as nat) == 256 * pow256(i as nat));
            assert((n as int / pow256(i as nat) as int) / 256 == n as int / (pow256(
                i as nat,
            ) as int * 256)) by (nonlinear_arith)
                requires
                    pow256(i as nat) >= 1,
                    n >= 0,
            ;
            assert(pow256(i as nat) as int * 256 == 256 * pow256(i as nat));
        }
        cur = cur / 256;
        i = i + 1;
    }
    proof {
        assert(out@ =~= le64_rep(n as int));
    }
    Ok(Value::Hash(out))
}

/// Builds an array of `num` entries: a function producer is invoked with
/// each index in turn; any other producer value is repeated as it is, so
/// the result is exactly `num` copies of it.
#[verifier::loop_isolation(false)]
pub fn repeat(args: Vec<Value>, scope: &mut Scope, fuel: u64) -> (r: Result<Value, Error>)
    requires
        scope_wf(old(scope)@),
    ensures
        scope_wf(final(scope)@),
        frames_preserved(old(scope)@, final(scope)@),
        values_view(args@).len() != 2 ==> (r matches Err(e) && e@ == ErrorM::InvalidArguments),
        values_view(args@).len() == 2 && !(values_view(args@)[0] is Number) ==> (r matches Err(e)
            && e@ == ErrorM::NotNumber(values_view(args@)[0])),
        values_view(args@).len() == 2 && values_view(args@)[0] is Number && !(values_view(
            args@,
        )[1] is Function) ==> (r matches Ok(v) && v@ == ValueM::Array(
            Seq::new(
                values_view(args@)[0]->Number_0 as nat,
                |j: int| values_view(args@)[1],
            ),
        )),
        r matches Ok(v) ==> v@ is Array,
        values_view(args@).len() == 2 && values_view(args@)[0] is Number ==> (r matches Ok(v)
            ==> v@->Array_0.len() == values_view(args@)[0]->Number_0),
    decreases fuel, 0nat, 1nat,
{
    proof {
        lemma_values_view(args@);
    }
    if args.len() != 2 {
        return Err(Error::InvalidArguments);
    }
    let num = match args[0].duplicate().into_usize() {
        Ok(n) => n,
        Err(e) => {
            return Err(e);
        },
    };
    let producer = &args[1];
    let ghost prodm = value_view(args@[1]);
    let mut out: Vec<Value> = Vec::new();
    let mut i: usize = 0;
    while i < num
        invariant
            i <= num,
            out@.len() == i as int,
            scope_wf(scope@),
            frames_preserved(old(scope)@, scope@),
            !(prodm is Function) ==> forall|j: int| 0 <= j < i ==> value_view(out@[j]) == prodm,
        decreases num - i,
    {
        let item = match producer {
            Value::Function(f) => {
                let mut cargs: Vec<Value> = Vec::new();
                cargs.push(Value::Number(i));
                match call_fn(scope, f, cargs, fuel) {
                    Ok(v) => v,
                    Err(e) => {
                        return Err(e);
                    },
                }
            },
            other => other.duplicate(),
        };
        out.push(item);
        i = i + 1;
    }
    proof {
        lemma_values_view(out@);
        if !(prodm is Function) {
            assert(values_view(out@) =~= Seq::new(num as nat, |j: int| prodm));
        }
    }
    Ok(Value::Array(crate::runtime::Array(out)))
}

/// Picks the second or third argument by the first, a boolean condition
/// (zero is false, any other number is true); a function picked this way
/// is invoked with no arguments, so that the two alternatives may be lazy
/// thunks, and any other picked value is returned as it is.
pub fn iif(args: Vec<Value>, scope: &mut Scope, fuel: u64) -> (r: Result<Value, Error>)
    requires
        scope_wf(old(scope)@),
    ensures
        scope_wf(final(scope)@),
        frames_preserved(old(scope)@, final(scope)@),
        values_view(args@).len() != 3 ==> (r matches Err(e) && e@ == ErrorM::InvalidArguments),
        values_view(args@).len() == 3 && !(values_view(args@)[0] is Number) ==> (r matches Err(e)
            && e@ == ErrorM::NotNumber(values_view(args@)[0])),
        values_view(args@).len() == 3 && values_view(args@)[0] is Number && !(iif_picked(
            values_view(args@),
        ) is Function) ==> (r matches Ok(v) && v@ == iif_picked(values_view(args@))),
    decreases fuel, 0nat, 1nat,
{
    proof {
        lemma_values_view(args@);
    }
    if args.len() != 3 {
        return Err(Error::InvalidArguments);
    }
    let condition = match args[0].duplicate().into_bool() {
        Ok(b) => b,
        Err(e) => {
            return Err(e);
        },
    };
    let picked = if condition {
        args[1].duplicate()
    } else {
        args[2].duplicate()
    };
    match picked {
        Value::Function(f) => call_fn(scope, &f, Vec::new(), fuel),
        other => Ok(other),
    }
}

/// The alternative `iif` picks: the second argument when the condition is
/// a non-zero number, the third when it is zero.
pub open spec fn iif_picked(a: Seq<ValueM>) -> ValueM {
    if a[0] matches ValueM::Number(c) && c != 0 {
        a[1]
    } else {
        a[2]
    }
}

/// Runs one builtin on already-evaluated arguments.
pub fn dispatch_builtin(b: Builtin, args: Vec<Value>, scope: &mut Scope, fuel: u64) -> (r: Result<
    Value,
    Error,
>)
    requires
        scope_wf(old(scope)@),
    ensures
        scope_wf(final(scope)@),
        frames_preserved(old(scope)@, final(scope)@),
        builtin_matches(b, values_view(args@), match r {
            Ok(v) => Ok(v@),
            Err(e) => Err(e@),
        }),
    decreases fuel, 0nat, 2nat,
{
    match b {
        Builtin::Or => self::miniscript::or(args),
        Builtin::And => self::miniscript::and(args),
        Builtin::Thresh => self::miniscript::thresh(args),
        Builtin::Older => self::miniscript::older(args),
        Builtin::After => self::miniscript::after(args),
        Builtin::Pk => self::miniscript::pk(args),
        Builtin::Sha256 => self::miniscript::sha256(args),
        Builtin::Hash256 => self::miniscript::hash256(args),
        Builtin::Ripemd160 => self::miniscript::ripemd160(args),
        Builtin::Hash160 => self::miniscript::hash160(args),
        Builtin::Miniscript => self::miniscript::miniscript(args),
        Builtin::Wpkh => self::miniscript::wpkh(args),
        Builtin::Wsh => self::miniscript::wsh(args),
        Builtin::Sh => self::miniscript::sh(args),
        Builtin::ScriptPubkey => self::miniscript::script_pubkey(args),
        Builtin::ExplicitScript => self::miniscript::explicit_script(args),
        Builtin::All => self::miniscript::all(args),
        Builtin::Any => self::miniscript::any(args),
        Builtin::Prob => self::miniscript::prob(args),
        Builtin::Len => len(args),
        Builtin::Rawscript => rawscript(args),
        Builtin::Le64 => le64(args),
        Builtin::Repeat => repeat(args, scope, fuel),
        Builtin::Iif => iif(args, scope, fuel),
    }
}

/// Runs a library program, written in the language itself, against the
/// root frame: the bootstrap step by which the standard library grows
/// reusable definitions without native code. Executed once against a
/// freshly attached root scope; bindings land in the root frame only, and
/// its existing bindings stay where they are.
pub fn bootstrap(scope: &mut Scope, prog: &Vec<crate::ast::Stmt>, fuel: u64) -> (r: Result<
    (),
    Error,
>)
    requires
        scope_wf(old(scope)@),
        old(scope)@.len() >= 1,
    ensures
        scope_wf(final(scope)@),
        crate::runtime::frames_preserved_except(old(scope)@, final(scope)@, 0),
{
    crate::runtime::exec_stmts(scope, 0, prog, fuel)
}

/// The native utility builtins by name, as the root frame gets them.
pub open spec fn native_stdlib() -> Seq<(Seq<char>, Builtin)> {
    seq![
        ("len"@, Builtin::Len),
        ("rawscript"@, Builtin::Rawscript),
        ("repeat"@, Builtin::Repeat),
        ("iif"@, Builtin::Iif),
        ("le64"@, Builtin::Le64),
    ]
}

/// The boolean and network literals by name, as the root frame gets them.
pub open spec fn literal_stdlib() -> Seq<(Seq<char>, ValueM)> {
    seq![
        ("true"@, ValueM::Number(1)),
        ("false"@, ValueM::Number(0)),
        ("testnet"@, ValueM::Network(Network::Testnet)),
        ("regtest"@, ValueM::Network(Network::Regtest)),
        ("_$$_RECKLESSLY_RISK_MY_BITCOINS_$$_"@, ValueM::Network(Network::Bitcoin)),
    ]
}

/// The literal and native names are pairwise distinct, and distinct from
/// every policy-builtin name and from `likely`.
proof fn lemma_native_names_distinct()
    ensures
        "true"@.len() == 4 && "false"@.len() == 5 && "testnet"@.len() == 7 && "regtest"@.len()
            == 7 && "_$$_RECKLESSLY_RISK_MY_BITCOINS_$$_"@.len() == 35 && "len"@.len() == 3
            && "rawscript"@.len() == 9 && "repeat"@.len() == 6 && "iif"@.len() == 3
            && "le64"@.len() == 4,
        "true"@[0] == 't' && "false"@[0] == 'f' && "testnet"@[0] == 't' && "regtest"@[0] == 'r'
            && "len"@[0] == 'l' && "rawscript"@[0] == 'r' && "repeat"@[0] == 'r' && "iif"@[0]
            == 'i' && "le64"@[0] == 'l',
        "len"@[1] == 'e' && "iif"@[1] == 'i' && "le64"@[1] == 'e',
        "len"@[2] == 'n' && "le64"@[2] == '6',
        "rawscript"@[1] == 'a' && "repeat"@[1] == 'e',
{
    reveal_strlit("true");
    reveal_strlit("false");
    reveal_strlit("testnet");
    reveal_strlit("regtest");
    reveal_strlit("_$$_RECKLESSLY_RISK_MY_BITCOINS_$$_");
    reveal_strlit("len");
    reveal_strlit("rawscript");
    reveal_strlit("repeat");
    reveal_strlit("iif");
    reveal_strlit("le64");
}

/// Attaches every builtin function and literal to the root frame: boolean
/// literals (numbers 1 and 0), network tags, the native functions, and the
/// policy builtins. Bindings already present stay where they are; each
/// absent name from those sets becomes bound to its value.
pub fn attach_stdlib(scope: &mut Scope)
    requires
        scope_wf(old(scope)@),
        old(scope)@.len() >= 1,
    ensures
        scope_wf(final(scope)@),
        final(scope)@.len() == old(scope)@.len(),
        forall|i: int| 1 <= i < old(scope)@.len() ==> final(scope)@[i] == old(scope)@[i],
        final(scope)@[0].parent == old(scope)@[0].parent,
        old(scope)@[0].binds.is_prefix_of(final(scope)@[0].binds),
        forall|n: Seq<char>, v: ValueM|
            crate::scope::find_bind(old(scope)@[0].binds, n) == Some(v)
                ==> crate::scope::find_bind(final(scope)@[0].binds, n) == Some(v),
        forall|j: int|
            0 <= j < literal_stdlib().len() && crate::scope::find_bind(
                old(scope)@[0].binds,
                literal_stdlib()[j].0,
            ) is None ==> crate::scope::find_bind(final(scope)@[0].binds, literal_stdlib()[j].0)
                == Some(literal_stdlib()[j].1),
        forall|j: int|
            0 <= j < native_stdlib().len() && crate::scope::find_bind(
                old(scope)@[0].binds,
                native_stdlib()[j].0,
            ) is None ==> crate::scope::find_bind(final(scope)@[0].binds, native_stdlib()[j].0)
                == Some(ValueM::Function(Function::Builtin(native_stdlib()[j].1))),
        forall|j: int|
            0 <= j < self::miniscript::policy_stdlib().len() && crate::scope::find_bind(
                old(scope)@[0].binds,
                self::miniscript::policy_stdlib()[j].0,
            ) is None ==> crate::scope::find_bind(
                final(scope)@[0].binds,
                self::miniscript::policy_stdlib()[j].0,
            ) == Some(
                ValueM::Function(Function::Builtin(self::miniscript::policy_stdlib()[j].1)),
            ),
        crate::scope::find_bind(old(scope)@[0].binds, "likely"@) is None
            ==> crate::scope::find_bind(final(scope)@[0].binds, "likely"@) == Some(
            ValueM::Number(self::miniscript::LIKELY_PROB as int),
        ),
{
    proof {
        lemma_native_names_distinct();
    }
    let ghost entry = scope@[0].binds;
    reg_value(scope, "true", Value::Number(1));
    let ghost b1 = scope@[0].binds;
    reg_value(scope, "false", Value::Number(0));
    let ghost b2 = scope@[0].binds;
    reg_value(scope, "testnet", Value::Network(Network::Testnet));
    let ghost b3 = scope@[0].binds;
    reg_value(scope, "regtest", Value::Network(Network::Regtest));
    let ghost b4 = scope@[0].binds;
    reg_value(scope, "_$$_RECKLESSLY_RISK_MY_BITCOINS_$$_", Value::Network(Network::Bitcoin));
    let ghost b5 = scope@[0].binds;
    proof {
        lemma_native_names_distinct();
        crate::scope::lemma_prefix_trans(entry, b1, b2);
        crate::scope::lemma_prefix_trans(entry, b2, b3);
        crate::scope::lemma_prefix_trans(entry, b3, b4);
        crate::scope::lemma_prefix_trans(entry, b4, b5);
    }
    let mut items: Vec<(&str, Builtin)> = Vec::new();
    items.push(("len", Builtin::Len));
    items.push(("rawscript", Builtin::Rawscript));
    items.push(("repeat", Builtin::Repeat));
    items.push(("iif", Builtin::Iif));
    items.push(("le64", Builtin::Le64));
    proof {
        lemma_native_names_distinct();
        assert(items@.len() == native_stdlib().len());
        assert forall|j: int| 0 <= j < items@.len() implies items@[j].0@ == native_stdlib()[j].0
            && items@[j].1 == native_stdlib()[j].1 by {}
        assert forall|i: int, j: int| 0 <= i < j < items@.len() implies items@[i].0@
            != items@[j].0@ by {}
    }
    self::miniscript::reg_all(scope, items);
    let ghost b6 = scope@[0].binds;
    proof {
        crate::scope::lemma_prefix_trans(entry, b5, b6);
        lemma_native_names_distinct();
        self::miniscript::lemma_policy_names_distinct();
        assert forall|j: int|
            0 <= j < self::miniscript::policy_stdlib().len() && crate::scope::find_bind(
                entry,
                self::miniscript::policy_stdlib()[j].0,
            ) is None implies crate::scope::find_bind(
            b6,
            self::miniscript::policy_stdlib()[j].0,
        ) is None by {
            let p = self::miniscript::policy_stdlib()[j].0;
            assert(crate::scope::find_bind(b5, p) is None);
        }
        if crate::scope::find_bind(entry, "likely"@) is None {
            assert(crate::scope::find_bind(b5, "likely"@) is None);
            assert(crate::scope::find_bind(b6, "likely"@) is None);
        }
    }
    self::miniscript::attach_stdlib(scope);
    proof {
        lemma_native_names_distinct();
        crate::scope::lemma_prefix_trans(entry, b6, scope@[0].binds);
    }
}

/// Registers one literal value in the root frame; an already-taken name is
/// left as it is. Existing bindings stay where they are, a fresh name
/// becomes bound to the value, and every other absent name stays absent.
fn reg_value(scope: &mut Scope, name: &str, value: Value)
    requires
        scope_wf(old(scope)@),
        old(scope)@.len() >= 1,
    ensures
        scope_wf(final(scope)@),
        final(scope)@.len() == old(scope)@.len(),
        forall|i: int| 1 <= i < old(scope)@.len() ==> final(scope)@[i] == old(scope)@[i],
        final(scope)@[0].parent == old(scope)@[0].parent,
        old(scope)@[0].binds.is_prefix_of(final(scope)@[0].binds),
        forall|n: Seq<char>, v: ValueM|
            crate::scope::find_bind(old(scope)@[0].binds, n) == Some(v)
                ==> crate::scope::find_bind(final(scope)@[0].binds, n) == Some(v),
        forall|n: Seq<char>|
            crate::scope::find_bind(old(scope)@[0].binds, n) is None && n != name@
                ==> crate::scope::find_bind(final(scope)@[0].binds, n) is None,
        crate::scope::find_bind(old(scope)@[0].binds, name@) is None
            ==> crate::scope::find_bind(final(scope)@[0].binds, name@) == Some(value@),
{
    let ghost before = scope@[0].binds;
    let ghost vm = value@;
    let id = Ident(name.to_owned());
    let outcome = scope.set(0, id, value);
    proof {
        self::miniscript::lemma_reg_effect(before, scope@[0].binds, name@, vm, outcome is Ok);
    }
    match outcome {
        _ => (),
    }
}

} // verus!

//! Canonical text building blocks: decimal rendering of numbers and
//! hexadecimal rendering and parsing of byte strings.

use vstd::prelude::*;
use vstd::string::StringExecFns;

verus! {

/// The decimal digit character for `n < 10`.
pub open spec fn dec_digit(n: nat) -> char {
    if n == 0 { '0' }
    else if n == 1 { '1' }
    else if n == 2 { '2' }
    else if n == 3 { '3' }
    else if n == 4 { '4' }
    else if n == 5 { '5' }
    else if n == 6 { '6' }
    else if n == 7 { '7' }
    else if n == 8 { '8' }
    else { '9' }
}

/// Canonical decimal representation of a number, most significant digit
/// first, with no leading zeros (a single `'0'` for zero).
pub open spec fn dec_rep(n: nat) -> Seq<char>
    decreases n,
{
    if n < 10 {
        seq![dec_digit(n)]
    } else {
        dec_rep(n / 10).push(dec_digit(n % 10))
    }
}

/// The hexadecimal digit character for `n < 16`, lower case.
pub open spec fn hex_digit(n: nat) -> char {
    if n < 10 { dec_digit(n) }
    else if n == 10 { 'a' }
    else if n == 11 { 'b' }
    else if n == 12 { 'c' }
    else if n == 13 { 'd' }
    else if n == 14 { 'e' }
    else { 'f' }
}

/// Canonical lower-case hex representation of a byte string, two digits per
/// byte.
pub open spec fn hex_rep(bs: Seq<u8>) -> Seq<char>
    decreases bs,
{
    if bs.len() == 0 {
        Seq::empty()
    } else {
        seq![hex_digit(bs[0] as nat / 16), hex_digit(bs[0] as nat % 16)] + hex_rep(
            bs.subrange(1, bs.len() as int),
        )
    }
}

/// Whether `c` is a hexadecimal digit (either case).
pub open spec fn is_hex_char(c: char) -> bool {
    ('0' <= c && c <= '9') || ('a' <= c && c <= 'f') || ('A' <= c && c <= 'F')
}

/// The value of a hexadecimal digit character.
pub open spec fn hex_char_val(c: char) -> nat {
    if '0' <= c && c <= '9' {
        (c as nat - '0' as nat) as nat
    } else if 'a' <= c && c <= 'f' {
        (c as nat - 'a' as nat + 10) as nat
    } else {
        (c as nat - 'A' as nat + 10) as nat
    }
}

/// Whether a character string is a well-formed hex encoding: an even number
/// of hex digits.
pub open spec fn hex_ok(s: Seq<char>) -> bool {
    s.len() % 2 == 0 && (forall|i: int| 0 <= i < s.len() ==> is_hex_char(#[trigger] s[i]))
}

/// The bytes a well-formed hex string denotes.
pub open spec fn hex_val(s: Seq<char>) -> Seq<u8>
    decreases s,
{
    if s.len() < 2 {
        Seq::empty()
    } else {
        seq![(hex_char_val(s[0]) * 16 + hex_char_val(s[1])) as u8] + hex_val(
            s.subrange(2, s.len() as int),
        )
    }
}

/// The single-character string for a decimal digit.
fn dec_digit_str(d: usize) -> (r: &'static str)
    requires
        d < 10,
    ensures
        r@ == seq![dec_digit(d as nat)],
{
    proof {
        reveal_strlit("0");
        reveal_strlit("1");
        reveal_strlit("2");
        reveal_strlit("3");
        reveal_strlit("4");
        reveal_strlit("5");
        reveal_strlit("6");
        reveal_strlit("7");
        reveal_strlit("8");
        reveal_strlit("9");
    }
    match d {
        0 => "0",
        1 => "1",
        2 => "2",
        3 => "3",
        4 => "4",
        5 => "5",
        6 => "6",
        7 => "7",
        8 => "8",
        _ => "9",
    }
}

/// The single-character string for a hex digit.
fn hex_digit_str(d: usize) -> (r: &'static str)
    requires
        d < 16,
    ensures
        r@ == seq![hex_digit(d as nat)],
{
    proof {
        reveal_strlit("a");
        reveal_strlit("b");
        reveal_strlit("c");
        reveal_strlit("d");
        reveal_strlit("e");
        reveal_strlit("f");
    }
    if d < 10 {
        dec_digit_str(d)
    } else {
        match d {
            10 => "a",
            11 => "b",
            12 => "c",
            13 => "d",
            14 => "e",
            _ => "f",
        }
    }
}

/// Renders a number in canonical decimal.
pub fn fmt_usize(n: usize) -> (r: String)
    ensures
        r@ == dec_rep(n as nat),
    decreases n,
{
    if n < 10 {
        dec_digit_str(n).to_owned()
    } else {
        let mut s = fmt_usize(n / 10);
        s.append(dec_digit_str(n % 10));
        proof {
            assert(s@ =~= dec_rep(n as nat));
        }
        s
    }
}

/// Renders a byte string in canonical lower-case hex.
#[verifier::loop_isolation(false)]
pub fn fmt_hex(bs: &Vec<u8>) -> (r: String)
    ensures
        r@ == hex_rep(bs@),
{
    let mut s = String::new();
    let mut i: usize = 0;
    while i < bs.len()
        invariant
            i <= bs.len(),
            s@ == hex_rep(bs@.subrange(0, i as int)),
        decreases bs.len() - i,
    {
        let b = bs[i];
        s.append(hex_digit_str((b / 16) as usize));
        s.append(hex_digit_str((b % 16) as usize));
        proof {
            lemma_hex_rep_snoc(bs@, i as int);
        }
        i = i + 1;
    }
    proof {
        assert(bs@.subrange(0, bs@.len() as int) =~= bs@);
    }
    s
}

/// Unfolds one byte at the end of a hex rendering.
proof fn lemma_hex_rep_snoc(bs: Seq<u8>, i: int)
    requires
        0 <= i < bs.len(),
    ensures
        hex_rep(bs.subrange(0, i + 1)) == hex_rep(bs.subrange(0, i)) + seq![
            hex_digit(bs[i] as nat / 16),
            hex_digit(bs[i] as nat % 16),
        ],
    decreases i,
{
    let pre = bs.subrange(0, i + 1);
    if i == 0 {
        assert(pre.subrange(1, pre.len() as int) =~= Seq::<u8>::empty());
        assert(hex_rep(bs.subrange(0, 0)) =~= Seq::<char>::empty());
        assert(pre.len() == 1 && pre[0] == bs[0]);
        assert(hex_rep(Seq::<u8>::empty()) =~= Seq::<char>::empty());
        assert(hex_rep(pre) =~= seq![
            hex_digit(bs[0] as nat / 16),
            hex_digit(bs[0] as nat % 16),
        ]);
    } else {
        let tail = bs.subrange(1, bs.len() as int);
        lemma_hex_rep_snoc(tail, i - 1);
        assert(pre.subrange(1, pre.len() as int) =~= tail.subrange(0, i));
        assert(bs.subrange(0, i).subrange(1, i) =~= tail.subrange(0, i - 1));
        assert(tail[i - 1] == bs[i]);
        assert(hex_rep(bs.subrange(0, i + 1)) =~= hex_rep(bs.subrange(0, i)) + seq![
            hex_digit(bs[i] as nat / 16),
            hex_digit(bs[i] as nat % 16),
        ]);
    }
}

/// The numeric value of one hex digit character, or `None` if it is not one.
fn hex_char_value(c: char) -> (r: Option<u8>)
    ensures
        r is Some <==> is_hex_char(c),
        r matches Some(v) ==> v as nat == hex_char_val(c) && v < 16,
{
    if '0' <= c && c <= '9' {
        Some((c as u8) - ('0' as u8))
    } else if 'a' <= c && c <= 'f' {
        Some((c as u8) - ('a' as u8) + 10)
    } else if 'A' <= c && c <= 'F' {
        Some((c as u8) - ('A' as u8) + 10)
    } else {
        None
    }
}

/// Parses a hex string into bytes. Succeeds exactly on well-formed
/// encodings: an even number of hex digits.
#[verifier::loop_isolation(false)]
pub fn parse_hex(s: &str) -> (r: Option<Vec<u8>>)
    ensures
        r is Some <==> hex_ok(s@),
        r matches Some(bs) ==> bs@ == hex_val(s@),
{
    let n = s.unicode_len();
    if n % 2 != 0 {
        return None;
    }
    let mut out: Vec<u8> = Vec::new();
    let mut i: usize = 0;
    while i < n
        invariant
            i <= n,
            i % 2 == 0,
            forall|j: int| 0 <= j < i ==> is_hex_char(#[trigger] s@[j]),
            out@ == hex_val(s@.subrange(0, i as int)),
        decreases n - i,
    {
        let hi = match hex_char_value(s.get_char(i)) {
            Some(v) => v,
            None => {
                return None;
            },
        };
        let lo = match hex_char_value(s.get_char(i + 1)) {
            Some(v) => v,
            None => {
                return None;
            },
        };
        out.push(hi * 16 + lo);
        proof {
            lemma_hex_val_snoc(s@, i as int);
        }
        i = i + 2;
    }
    proof {
        assert(s@.subrange(0, s@.len() as int) =~= s@);
    }
    Some(out)
}

/// Unfolds one byte at the end of a hex parse.
proof fn lemma_hex_val_snoc(s: Seq<char>, i: int)
    requires
        0 <= i,
        i + 2 <= s.len(),
        i % 2 == 0,
    ensures
        hex_val(s.subrange(0, i + 2)) == hex_val(s.subrange(0, i)) + seq![
            (hex_char_val(s[i]) * 16 + hex_char_val(s[i + 1])) as u8,
        ],
    decreases i,
{
    let pre = s.subrange(0, i + 2);
    if i == 0 {
        assert(pre.subrange(2, pre.len() as int) =~= Seq::<char>::empty());
        assert(hex_val(s.subrange(0, 0)) =~= Seq::<u8>::empty());
        assert(pre.len() == 2 && pre[0] == s[0] && pre[1] == s[1]);
        assert(hex_val(Seq::<char>::empty()) =~= Seq::<u8>::empty());
        assert(hex_val(pre) =~= seq![(hex_char_val(s[0]) * 16 + hex_char_val(s[1])) as u8]);
    } else {
        let tail = s.subrange(2, s.len() as int);
        lemma_hex_val_snoc(tail, i - 2);
        assert(pre.subrange(2, pre.len() as int) =~= tail.subrange(0, i));
        assert(s.subrange(0, i).subrange(2, i) =~= tail.subrange(0, i - 2));
        assert(tail[i - 2] == s[i]);
        assert(tail[i - 1] == s[i + 1]);
        assert(hex_val(s.subrange(0, i + 2)) =~= hex_val(s.subrange(0, i)) + seq![
            (hex_char_val(s[i]) * 16 + hex_char_val(s[i + 1])) as u8,
        ]);
    }
}

} // verus!

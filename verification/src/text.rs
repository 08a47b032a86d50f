//! Rendering of numbers and pieces of text into messages.

use vstd::prelude::*;
use vstd::string::*;

verus! {

/// The character that stands for the digit `d` in bases up to sixteen.
pub open spec fn digit(d: int) -> char {
    if d == 0 {
        '0'
    } else if d == 1 {
        '1'
    } else if d == 2 {
        '2'
    } else if d == 3 {
        '3'
    } else if d == 4 {
        '4'
    } else if d == 5 {
        '5'
    } else if d == 6 {
        '6'
    } else if d == 7 {
        '7'
    } else if d == 8 {
        '8'
    } else if d == 9 {
        '9'
    } else if d == 10 {
        'a'
    } else if d == 11 {
        'b'
    } else if d == 12 {
        'c'
    } else if d == 13 {
        'd'
    } else if d == 14 {
        'e'
    } else {
        'f'
    }
}

/// `n` in the given base, without leading zeros.
pub open spec fn numeral(n: nat, base: nat) -> Seq<char>
    decreases n,
{
    if base < 2 || n < base {
        seq![digit(n as int)]
    } else {
        proof {
            assert(n / base < n) by (nonlinear_arith)
                requires
                    n >= base,
                    base >= 2,
            ;
        }
        numeral(n / base, base).push(digit((n % base) as int))
    }
}

/// `n` in decimal.
#[verifier::opaque]
pub open spec fn dec(n: nat) -> Seq<char> {
    numeral(n, 10)
}

/// `n` in lower-case hexadecimal, without leading zeros.
#[verifier::opaque]
pub open spec fn hex(n: nat) -> Seq<char> {
    numeral(n, 16)
}

/// `n` in lower-case hexadecimal, two digits.
#[verifier::opaque]
pub open spec fn hex2(n: u8) -> Seq<char> {
    seq![digit((n / 16) as int), digit((n % 16) as int)]
}

/// `n` in lower-case hexadecimal, four digits.
#[verifier::opaque]
pub open spec fn hex4(n: u16) -> Seq<char> {
    seq![
        digit((n / 4096) as int),
        digit((n / 256 % 16) as int),
        digit((n / 16 % 16) as int),
        digit((n % 16) as int),
    ]
}

/// A message that starts with `s`.
pub(crate) fn lit(s: &str) -> (r: String)
    ensures
        r@ == s@,
{
    s.to_owned()
}

/// `s` followed by `t`.
pub(crate) fn cat(s: String, t: &str) -> (r: String)
    ensures
        r@ == s@ + t@,
{
    s.concat(t)
}

/// `s` followed by the digit `d`.
fn cat_digit(s: String, d: u8) -> (r: String)
    requires
        d < 16,
    ensures
        r@ == s@.push(digit(d as int)),
{
    proof {
        reveal_strlit("0");
        reveal_strlit("1");
        reveal_strlit("2");
        reveal_strlit("3");
        reveal_strlit("4");
        reveal_strlit("5");
        reveal_strlit("6");
        reveal_strlit("7");
        reveal_strlit("8");
        reveal_strlit("9");
        reveal_strlit("a");
        reveal_strlit("b");
        reveal_strlit("c");
        reveal_strlit("d");
        reveal_strlit("e");
        reveal_strlit("f");
    }
    let t = match d {
        0 => "0",
        1 => "1",
        2 => "2",
        3 => "3",
        4 => "4",
        5 => "5",
        6 => "6",
        7 => "7",
        8 => "8",
        9 => "9",
        10 => "a",
        11 => "b",
        12 => "c",
        13 => "d",
        14 => "e",
        _ => "f",
    };
    let ghost before = s@;
    let r = s.concat(t);
    assert(r@ =~= before.push(digit(d as int)));
    r
}

/// `s` followed by `n` in the given base.
fn cat_numeral(s: String, n: u128, base: u128) -> (r: String)
    requires
        2 <= base <= 16,
    ensures
        r@ == s@ + numeral(n as nat, base as nat),
    decreases n,
{
    let ghost before = s@;
    if n < base {
        let r = cat_digit(s, n as u8);
        assert(r@ =~= before + numeral(n as nat, base as nat));
        r
    } else {
        assert(n / base < n) by (nonlinear_arith)
            requires
                n >= base,
                base >= 2,
        ;
        let r = cat_digit(cat_numeral(s, n / base, base), (n % base) as u8);
        assert(r@ =~= before + numeral(n as nat, base as nat));
        r
    }
}

/// `s` followed by `n` in decimal.
pub(crate) fn cat_dec(s: String, n: u64) -> (r: String)
    ensures
        r@ == s@ + dec(n as nat),
{
    proof {
        reveal(dec);
    }
    cat_numeral(s, n as u128, 10)
}

/// `s` followed by a number of up to 128 bits in decimal.
pub(crate) fn cat_dec_wide(s: String, n: u128) -> (r: String)
    ensures
        r@ == s@ + dec(n as nat),
{
    proof {
        reveal(dec);
    }
    cat_numeral(s, n, 10)
}

/// `s` followed by `n` in hexadecimal.
pub(crate) fn cat_hex(s: String, n: u64) -> (r: String)
    ensures
        r@ == s@ + hex(n as nat),
{
    proof {
        reveal(hex);
    }
    cat_numeral(s, n as u128, 16)
}

/// `s` followed by `n` as two hexadecimal digits.
pub(crate) fn cat_hex2(s: String, n: u8) -> (r: String)
    ensures
        r@ == s@ + hex2(n),
{
    let ghost before = s@;
    let r = cat_digit(cat_digit(s, n / 16), n % 16);
    assert(r@ =~= before + hex2(n)) by {
        reveal(hex2);
    }
    r
}

/// `s` followed by `n` as four hexadecimal digits.
pub(crate) fn cat_hex4(s: String, n: u16) -> (r: String)
    ensures
        r@ == s@ + hex4(n),
{
    let ghost before = s@;
    let r = cat_digit(cat_digit(s, (n / 4096) as u8), (n / 256 % 16) as u8);
    let r = cat_digit(cat_digit(r, (n / 16 % 16) as u8), (n % 16) as u8);
    assert(r@ =~= before + hex4(n)) by {
        reveal(hex4);
    }
    r
}

} // verus!

//! Fixed-point amounts.
//!
//! Every price and quantity is a whole number of units of 10^-8; balances are
//! signed amounts in the same unit. Decimal text is read with `rust_decimal` and
//! converted here, exactly, into units.

use vstd::prelude::*;
use vstd::arithmetic::div_mod::{lemma_fundamental_div_mod, lemma_fundamental_div_mod_converse};
use rust_decimal::Decimal;
use std::str::FromStr;

verus! {

/// Number of fractional decimal digits carried by prices, quantities and balances.
pub const SCALE_DIGITS: u32 = 8;

/// Units in one whole: 10^SCALE_DIGITS.
pub const UNIT: u64 = 100_000_000;

/// 10^n.
pub open spec fn pow10(n: nat) -> nat
    decreases n,
{
    if n == 0 {
        1
    } else {
        10 * pow10((n - 1) as nat)
    }
}

/// 10^n is at least 1.
pub proof fn lemma_pow10_pos(n: nat)
    ensures
        pow10(n) >= 1,
    decreases n,
{
    if n > 0 {
        lemma_pow10_pos((n - 1) as nat);
    }
}

/// 10^(a+b) = 10^a * 10^b.
pub proof fn lemma_pow10_add(a: nat, b: nat)
    ensures
        pow10(a + b) == pow10(a) * pow10(b),
    decreases a,
{
    if a == 0 {
        assert(pow10(a) == 1);
        assert(a + b == b);
    } else {
        let a1 = (a - 1) as nat;
        lemma_pow10_add(a1, b);
        let x = pow10(a1);
        let y = pow10(b);
        assert(pow10(a1 + b) == x * y);
        assert(a1 + b + 1 == a + b);
        assert(pow10(a + b) == 10 * pow10(a1 + b));
        assert(pow10(a) == 10 * x);
        assert(10 * (x * y) == (10 * x) * y) by (nonlinear_arith);
    }
}

/// The two powers of ten the conversions rest on.
pub proof fn lemma_pow10_known()
    ensures
        pow10(8) == 100_000_000,
        pow10(28) == 10000000000000000000000000000,
{
    reveal_with_fuel(pow10, 29);
}

/// What `rust_decimal::Decimal::from_str` reads from a string: the mantissa `m`
/// and scale `e` of the number `m / 10^e`, or `None` where it rejects the text.
pub uninterp spec fn decimal_from_str(s: Seq<char>) -> Option<(i128, u32)>;

/// Trusted: calls `Decimal::from_str` and takes the mantissa and scale of the
/// result. Its value is named [`decimal_from_str`]; `rust_decimal` documents that
/// every `Decimal` is `m / 10^e` with `-2^96 < m < 2^96` and `0 <= e <= 28`.
/// The grammar it accepts is not stated.
#[verifier::external_body]
fn parse_decimal_parts(s: &str) -> (r: Option<(i128, u32)>)
    ensures
        r == decimal_from_str(s@),
        r matches Some((m, e)) ==> e <= 28 && -0x1_0000_0000_0000_0000_0000_0000 < m
            < 0x1_0000_0000_0000_0000_0000_0000,
{
    match Decimal::from_str(s) {
        Ok(d) => Some((d.mantissa(), d.scale())),
        Err(_) => None,
    }
}

/// What `rust_decimal` writes (`to_string`) for the `Decimal` with mantissa
/// `mantissa` and scale `scale`.
pub uninterp spec fn decimal_written(mantissa: int, scale: nat) -> Seq<char>;

/// Trusted: builds the `Decimal` `units / 10^8` with `Decimal::from_i128_with_scale`
/// (a `u64` is far inside its range, so it does not panic) and writes it with
/// `to_string`. Its value is named [`decimal_written`]; the text format is not
/// stated.
#[verifier::external_body]
fn decimal_text(units: u64) -> (r: String)
    ensures
        r@ == decimal_written(units as int, SCALE_DIGITS as nat),
{
    Decimal::from_i128_with_scale(units as i128, SCALE_DIGITS).to_string()
}

/// An amount of units as decimal text with its eight decimals (150000000 is
/// "1.50000000"), as the wire messages carry it.
pub fn amount_text(units: u64) -> (r: String)
    ensures
        r@ == decimal_written(units as int, SCALE_DIGITS as nat),
{
    decimal_text(units)
}

/// The number of units that `mantissa / 10^scale` is, when that number is a
/// non-negative whole number of units that fits in a `u64`.
pub open spec fn units_of(mantissa: int, scale: nat) -> Option<u64> {
    let num = mantissa * pow10(SCALE_DIGITS as nat);
    let den = pow10(scale) as int;
    if mantissa >= 0 && num % den == 0 && num / den <= u64::MAX {
        Some((num / den) as u64)
    } else {
        None
    }
}

/// The units that decimal text stands for, when `Decimal::from_str` accepts it.
pub open spec fn units_of_text(s: Seq<char>) -> Option<u64> {
    match decimal_from_str(s) {
        Some((m, e)) => units_of(m as int, e as nat),
        None => None,
    }
}

/// 10^n as a u128.
fn pow10_u128(n: u32) -> (r: u128)
    requires
        n <= 28,
    ensures
        r == pow10(n as nat),
{
    let mut r: u128 = 1;
    let mut i: u32 = 0;
    proof {
        lemma_pow10_known();
    }
    while i < n
        invariant
            i <= n <= 28,
            r == pow10(i as nat),
            r <= pow10(28),
        decreases n - i,
    {
        proof {
            lemma_pow10_add((i + 1) as nat, (27 - i) as nat);
            lemma_pow10_pos((27 - i) as nat);
            assert(pow10((i + 1) as nat) <= pow10((i + 1) as nat) * pow10((27 - i) as nat))
                by (nonlinear_arith)
                requires
                    pow10((27 - i) as nat) >= 1,
            ;
            lemma_pow10_known();
        }
        r = r * 10;
        i = i + 1;
    }
    r
}

/// Converts the decimal number `mantissa / 10^scale` into units of 10^-8, exactly.
/// Fails where the number is negative, has more than eight fractional digits
/// that are not zero, or is too large for a `u64` count of units.
pub fn units_from_parts(mantissa: i128, scale: u32) -> (r: Option<u64>)
    requires
        scale <= 28,
    ensures
        r == units_of(mantissa as int, scale as nat),
{
    if mantissa < 0 {
        return None;
    }
    let m = mantissa as u128;
    let ghost num = mantissa * pow10(8);
    let ghost den = pow10(scale as nat) as int;
    if scale <= SCALE_DIGITS {
        let k = pow10_u128(SCALE_DIGITS - scale);
        proof {
            lemma_pow10_add((8 - scale) as nat, scale as nat);
            lemma_pow10_pos(scale as nat);
            assert(num == (m * k) * den) by (nonlinear_arith)
                requires
                    num == mantissa * pow10(8),
                    pow10(8) == k * den,
                    m == mantissa,
            ;
            lemma_fundamental_div_mod_converse(num, den, (m * k) as int, 0);
            lemma_pow10_known();
            assert(k <= pow10(8)) by (nonlinear_arith)
                requires
                    pow10(8) == k * den,
                    den >= 1,
                    k >= 0,
            ;
        }
        if m > u64::MAX as u128 {
            proof {
                lemma_pow10_pos((8 - scale) as nat);
                assert(m * k >= m) by (nonlinear_arith)
                    requires
                        k >= 1,
                        m >= 0,
                ;
            }
            return None;
        }
        assert(m * k <= 0xffff_ffff_ffff_ffff * 100_000_000) by (nonlinear_arith)
            requires
                m <= 0xffff_ffff_ffff_ffff,
                k <= 100_000_000,
                m >= 0,
                k >= 0,
        ;
        let prod = m * k;
        if prod > u64::MAX as u128 {
            None
        } else {
            Some(prod as u64)
        }
    } else {
        let d = pow10_u128(scale - SCALE_DIGITS);
        proof {
            lemma_pow10_add((scale - 8) as nat, 8);
            lemma_pow10_pos((scale - 8) as nat);
        }
        let q = m / d;
        let rem = m % d;
        proof {
            let c = pow10(8) as int;
            lemma_pow10_known();
            lemma_fundamental_div_mod(m as int, d as int);
            assert(num == q * den + rem * c) by (nonlinear_arith)
                requires
                    num == mantissa * c,
                    mantissa == m,
                    m == d * q + rem,
                    den == d * c,
            ;
            assert(0 <= rem * c < den) by (nonlinear_arith)
                requires
                    0 <= rem < d,
                    den == d * c,
                    c > 0,
            ;
            lemma_fundamental_div_mod_converse(num, den, q as int, rem * c);
            assert(rem * c == 0 <==> rem == 0) by (nonlinear_arith)
                requires
                    c > 0,
                    rem >= 0,
            ;
        }
        if rem != 0 {
            None
        } else if q > u64::MAX as u128 {
            None
        } else {
            Some(q as u64)
        }
    }
}

/// Reads decimal text (as `Decimal::from_str` does) into units of 10^-8.
/// `None` where the text is not a decimal number or the number is not a
/// non-negative whole number of units that fits in a `u64`.
pub fn parse_units(s: &str) -> (r: Option<u64>)
    ensures
        r == units_of_text(s@),
{
    match parse_decimal_parts(s) {
        Some((m, e)) => units_from_parts(m, e),
        None => None,
    }
}

} // verus!

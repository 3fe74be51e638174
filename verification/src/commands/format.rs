//! Sizes in human-readable form.

use vstd::prelude::*;
use vstd::string::*;
use vstd::arithmetic::div_mod::*;
use crate::text::{decimal, decimal_text, digit};

verus! {

/// The bytes in a kilobyte.
pub const KB: u64 = 1024;

/// The bytes in a megabyte.
pub const MB: u64 = 1048576;

/// The bytes in a gigabyte.
pub const GB: u64 = 1073741824;

/// The first number that a double cannot hold in all cases.
pub const DOUBLE_LIMIT: u64 = 9007199254740992;

/// `n / d` rounded to the nearest integer, a tie to the even one.
pub open spec fn nearest_even(n: nat, d: nat) -> nat {
    let q = n / d;
    let r = n % d;
    if 2 * r < d || (2 * r == d && q % 2 == 0) {
        q
    } else {
        q + 1
    }
}

/// The distance between neighbouring doubles around `n`, where that is more than
/// one.
pub open spec fn spacing(n: nat) -> nat
    decreases n,
{
    if n < DOUBLE_LIMIT {
        1
    } else {
        2 * spacing(n / 2)
    }
}

/// The double nearest to `n`, of which every integer below the limit is one.
pub open spec fn as_double(n: nat) -> nat {
    nearest_even(n, spacing(n)) * spacing(n)
}

/// `n` in units, with two decimals.
pub open spec fn two_decimals(n: nat, unit: nat) -> Seq<char> {
    let hundredths = nearest_even(as_double(n) * 100, unit);
    decimal(hundredths / 100) + "."@ + seq![
        digit((hundredths / 10) % 10),
        digit(hundredths % 10),
    ]
}

/// A number of bytes in human-readable form: the largest unit that it reaches, with
/// two decimals.
pub open spec fn bytes_words(bytes: u64) -> Seq<char> {
    if bytes >= GB {
        two_decimals(bytes as nat, GB as nat) + " GB"@
    } else if bytes >= MB {
        two_decimals(bytes as nat, MB as nat) + " MB"@
    } else if bytes >= KB {
        two_decimals(bytes as nat, KB as nat) + " KB"@
    } else {
        decimal(bytes as nat) + " bytes"@
    }
}

fn round_nearest_even(n: u128, d: u128) -> (q: u128)
    requires
        d > 0,
        n <= 0xffff_ffff_ffff_ffff_ffff_ffff,
        d <= 0xffff_ffff_ffff_ffff,
    ensures
        q == nearest_even(n as nat, d as nat),
{
    let q: u128 = n / d;
    let r: u128 = n % d;
    if 2 * r < d || (2 * r == d && q % 2 == 0) {
        q
    } else {
        assert(q <= n) by (nonlinear_arith)
            requires
                q == n / d,
                d > 0,
        ;
        q + 1
    }
}

proof fn lemma_spacing(n: nat)
    requires
        n <= u64::MAX,
    ensures
        1 <= spacing(n) <= 2048,
        n >= DOUBLE_LIMIT ==> spacing(n) <= n / 2,
{
    reveal_with_fuel(spacing, 13);
}

fn spacing_of(n: u64) -> (s: u64)
    ensures
        s == spacing(n as nat),
        1 <= s <= 2048,
    decreases n,
{
    proof {
        lemma_spacing(n as nat);
    }
    if n < DOUBLE_LIMIT {
        1
    } else {
        2 * spacing_of(n / 2)
    }
}

fn decimals_text(n: u64, unit: u64) -> (s: String)
    requires
        unit > 0,
    ensures
        s@ == two_decimals(n as nat, unit as nat),
{
    let step: u64 = spacing_of(n);
    let rounded: u128 = round_nearest_even(n as u128, step as u128);
    let ghost exact = nearest_even(n as nat, step as nat);
    proof {
        lemma_fundamental_div_mod(n as int, step as int);
        let q = n as int / step as int;
        let r = n as int % step as int;
        assert(exact <= q + 1);
        assert(exact * step <= n + step) by (nonlinear_arith)
            requires
                0 <= exact <= q + 1,
                n == step * q + r,
                0 <= r,
                step > 0,
        ;
    }
    let value: u128 = rounded * (step as u128);
    assert(value == as_double(n as nat));
    let hundredths: u128 = round_nearest_even(value * 100, unit as u128);
    proof {
        let h = nearest_even((value * 100) as nat, unit as nat);
        assert((value * 100) as int / unit as int <= value * 100) by (nonlinear_arith)
            requires
                unit > 0,
        ;
    }
    let whole: u128 = hundredths / 100;
    let tens: u8 = ((hundredths / 10) % 10) as u8;
    let ones: u8 = (hundredths % 10) as u8;
    let mut s = wide_decimal_text(whole);
    s.append(".");
    s.push((48 + tens) as char);
    s.push((48 + ones) as char);
    assert(s@ =~= two_decimals(n as nat, unit as nat));
    s
}

fn wide_decimal_text(n: u128) -> (s: String)
    ensures
        s@ == decimal(n as nat),
    decreases n,
{
    let d: u8 = (n % 10) as u8;
    let c: char = (48 + d) as char;
    if n < 10 {
        let mut s = String::new();
        s.push(c);
        assert(s@ =~= seq![digit(n as nat)]);
        s
    } else {
        let mut s = wide_decimal_text(n / 10);
        s.push(c);
        s
    }
}

/// A number of bytes in human-readable form.
pub fn format_bytes(bytes: u64) -> (s: String)
    ensures
        s@ == bytes_words(bytes),
{
    if bytes >= GB {
        let mut s = decimals_text(bytes, GB);
        s.append(" GB");
        s
    } else if bytes >= MB {
        let mut s = decimals_text(bytes, MB);
        s.append(" MB");
        s
    } else if bytes >= KB {
        let mut s = decimals_text(bytes, KB);
        s.append(" KB");
        s
    } else {
        let mut s = decimal_text(bytes);
        s.append(" bytes");
        s
    }
}

/// Rounding goes to the nearest integer, and of two that are equally near to the even one.
pub proof fn law_rounding_goes_to_the_nearest(n: nat, d: nat)
    requires
        d > 0,
    ensures
        ({
            let q = nearest_even(n, d);
            &&& 2 * n <= 2 * (q * d) + d
            &&& 2 * (q * d) <= 2 * n + d
            &&& 2 * n == 2 * (q * d) + d || 2 * (q * d) == 2 * n + d ==> q % 2 == 0
        }),
{
    let q = (n / d) as int;
    let r = (n % d) as int;
    lemma_fundamental_div_mod(n as int, d as int);
    vstd::arithmetic::mul::lemma_mul_is_commutative(q, d as int);
    assert((q + 1) * d == q * d + d) by (nonlinear_arith);
}

/// A double has 53 bits: every number below their limit is one, and the others are rounded to
/// a multiple of the power of two that leaves 53 bits of them.
pub proof fn law_doubles_have_53_bits(n: nat)
    ensures
        n < 0x20_0000_0000_0000 ==> as_double(n) == n,
        n < 0x20_0000_0000_0000 ==> spacing(n) == 1,
        n >= 0x20_0000_0000_0000 ==> spacing(n) == 2 * spacing(n / 2),
{
    if n < 0x20_0000_0000_0000 {
        lemma_fundamental_div_mod(n as int, 1);
        assert(nearest_even(n, 1) == n);
        assert(spacing(n) == 1);
        vstd::arithmetic::mul::lemma_mul_basics(n as int);
        assert(as_double(n) == n * spacing(n));
    }
}

/// A number of bytes is shown in the largest unit that it reaches, with two decimals that are
/// rounded to the nearest, and in bytes below a kilobyte.
pub proof fn law_sizes_are_shown_in_their_largest_unit(bytes: u64)
    ensures
        ({
            let shown = |unit: nat|
                {
                    let h = nearest_even(as_double(bytes as nat) * 100, unit);
                    decimal(h / 100) + "."@ + seq![
                        (48 + (h / 10) % 10) as char,
                        (48 + h % 10) as char,
                    ]
                };
            &&& bytes < 1024 ==> bytes_words(bytes) == decimal(bytes as nat) + " bytes"@
            &&& 1024 <= bytes < 1048576 ==> bytes_words(bytes) == shown(1024) + " KB"@
            &&& 1048576 <= bytes < 1073741824 ==> bytes_words(bytes) == shown(1048576) + " MB"@
            &&& bytes >= 1073741824 ==> bytes_words(bytes) == shown(1073741824) + " GB"@
        }),
{
}

} // verus!

//! Human-readable byte sizes such as `"512 B"`, `"3.4 KB"` and `"1.2 MB"`.
//!
//! Sizes of a kilobyte and more are shown with one decimal, the way
//! `format!("{:.1}", bytes as f64 / unit as f64)` shows them: the byte count
//! is first rounded to the nearest `f64` (53 significant bits, ties to even),
//! divided exactly by the unit (a power of two), and the quotient is rounded
//! to tenths, ties to even. This computes the same with integers.
use vstd::prelude::*;

use crate::text::{decimal, digit_char, push_char, push_decimal};

verus! {

pub const KB: u64 = 1024;

pub const MB: u64 = 1024 * 1024;

pub open spec fn two_pow(n: nat) -> nat
    decreases n,
{
    if n == 0 {
        1
    } else {
        2 * two_pow((n - 1) as nat)
    }
}

/// How many low bits of `b` an `f64` cannot keep, counting from `e`: the
/// least `e' >= e` (up to 11) with `b < 2^(53 + e')`.
pub open spec fn dropped_bits_from(b: nat, e: nat) -> nat
    decreases 11 - e,
{
    if e >= 11 || b < two_pow(53 + e) {
        e
    } else {
        dropped_bits_from(b, e + 1)
    }
}

/// `n / d` rounded to the nearest integer, ties to the even one.
pub open spec fn round_div(n: nat, d: nat) -> nat {
    let q = n / d;
    let r = n % d;
    if r * 2 > d || (r * 2 == d && q % 2 == 1) {
        q + 1
    } else {
        q
    }
}

/// The value of `b as f64` for `b < 2^64`.
pub open spec fn as_f64(b: nat) -> nat {
    let unit = two_pow(dropped_bits_from(b, 0));
    round_div(b, unit) * unit
}

/// `bytes / unit` as a number of tenths, rounded as `{:.1}` rounds.
pub open spec fn tenths(bytes: nat, unit: nat) -> nat {
    round_div(as_f64(bytes) * 10, unit)
}

/// A number of tenths written with one decimal, e.g. `"3.4"`.
pub open spec fn one_decimal(t: nat) -> Seq<char> {
    decimal(t / 10) + seq!['.', digit_char((t % 10) as int)]
}

/// The display size of `bytes`.
pub open spec fn spec_format_size(bytes: u64) -> Seq<char> {
    if bytes >= MB {
        one_decimal(tenths(bytes as nat, MB as nat)) + " MB"@
    } else if bytes >= KB {
        one_decimal(tenths(bytes as nat, KB as nat)) + " KB"@
    } else {
        decimal(bytes as nat) + " B"@
    }
}

const F64_MANTISSA_LIMIT: u128 = 9007199254740992;

proof fn lemma_two_pow_53()
    ensures
        two_pow(53) == F64_MANTISSA_LIMIT,
{
    reveal_with_fuel(two_pow, 54);
}

fn round_div_exec(n: u128, d: u128) -> (r: u128)
    requires
        0 < d <= 0x1_0000_0000_0000_0000,
        n / d < u128::MAX,
    ensures
        r == round_div(n as nat, d as nat),
{
    let q = n / d;
    let rem = n % d;
    if rem * 2 > d || (rem * 2 == d && q % 2 == 1) {
        q + 1
    } else {
        q
    }
}

/// `b as f64`, as an integer.
fn f64_value(b: u64) -> (f: u128)
    ensures
        f == as_f64(b as nat),
        f <= 0x1_0000_0000_0000_0000,
{
    let wide = b as u128;
    let mut e: u32 = 0;
    let mut unit: u128 = 1;
    let mut limit: u128 = F64_MANTISSA_LIMIT;
    proof {
        lemma_two_pow_53();
        reveal_with_fuel(two_pow, 12);
        assert(two_pow(11) == 2048);
    }
    while e < 11 && wide >= limit
        invariant
            e <= 11,
            unit == two_pow(e as nat),
            limit == two_pow(53 + e as nat),
            limit == unit * F64_MANTISSA_LIMIT,
            unit * two_pow((11 - e) as nat) == 2048,
            dropped_bits_from(b as nat, 0) == dropped_bits_from(b as nat, e as nat),
            wide == b,
        decreases 11 - e,
    {
        assert(two_pow((11 - e) as nat) == 2 * two_pow((10 - e) as nat));
        assert(two_pow((53 + e + 1) as nat) == 2 * two_pow((53 + e) as nat));
        assert(two_pow((e + 1) as nat) == 2 * two_pow(e as nat));
        let ghost t = two_pow((10 - e) as nat);
        assert((unit * 2) * t == 2048) by (nonlinear_arith)
            requires
                unit * (2 * t) == 2048,
        {}
        e = e + 1;
        unit = unit * 2;
        limit = limit * 2;
    }
    assert(dropped_bits_from(b as nat, e as nat) == e);
    assert(unit <= 2048) by (nonlinear_arith)
        requires
            unit * two_pow((11 - e) as nat) == 2048,
            two_pow((11 - e) as nat) >= 1,
    {}
    assert(e == 11 ==> unit == 2048) by {
        if e == 11 {
            assert(two_pow(0) == 1);
        }
    }
    assert(wide < limit);
    let q = wide / unit;
    assert(q < F64_MANTISSA_LIMIT) by (nonlinear_arith)
        requires
            wide < unit * F64_MANTISSA_LIMIT,
            unit >= 1,
            q == wide / unit,
    {}
    let rounded = round_div_exec(wide, unit);
    assert(rounded * unit <= limit) by (nonlinear_arith)
        requires
            rounded <= F64_MANTISSA_LIMIT,
            limit == unit * F64_MANTISSA_LIMIT,
            unit >= 1,
    {}
    rounded * unit
}

fn push_one_decimal(s: &mut String, t: u128)
    requires
        t / 10 <= u64::MAX,
    ensures
        final(s)@ == old(s)@ + one_decimal(t as nat),
{
    push_decimal(s, (t / 10) as u64);
    push_char(s, '.');
    let d = (t % 10) as u64;
    let c: char = match d {
        0 => '0',
        1 => '1',
        2 => '2',
        3 => '3',
        4 => '4',
        5 => '5',
        6 => '6',
        7 => '7',
        8 => '8',
        _ => '9',
    };
    push_char(s, c);
    assert(final(s)@ =~= old(s)@ + one_decimal(t as nat)) by {
        assert(c == digit_char((t % 10) as int));
    }
}

/// Formats a byte count as a short human-readable size, e.g. `"512 B"`,
/// `"3.4 KB"`, `"1.2 MB"`.
pub fn format_size(bytes: u64) -> (s: String)
    ensures
        s@ == spec_format_size(bytes),
{
    let mut s = String::new();
    if bytes >= MB || bytes >= KB {
        let unit: u128 = if bytes >= MB { MB as u128 } else { KB as u128 };
        let f = f64_value(bytes);
        assert((f * 10) as int / (unit as int) <= 0x1_0000_0000_0000_0000 * 10 / 1024) by (nonlinear_arith)
            requires
                f <= 0x1_0000_0000_0000_0000,
                unit >= 1024,
        {}
        let t = round_div_exec(f * 10, unit);
        push_one_decimal(&mut s, t);
        if bytes >= MB {
            s.append(" MB");
        } else {
            s.append(" KB");
        }
    } else {
        push_decimal(&mut s, bytes);
        s.append(" B");
    }
    s
}

} // verus!

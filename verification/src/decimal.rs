use vstd::prelude::*;

use crate::model::{two_to, Scalar};
use crate::text::{decimal_chars, digit_char, push_char, string_of};
use vstd::string::StringExecFns;

verus! {

/// The exponent field of a single-precision bit pattern.
pub open spec fn f32_biased(bits: u32) -> nat {
    ((bits / 0x80_0000u32) % 0x100u32) as nat
}

/// The fraction field.
pub open spec fn f32_fraction(bits: u32) -> nat {
    (bits % 0x80_0000u32) as nat
}

pub open spec fn f32_negative(bits: u32) -> bool {
    bits >= 0x8000_0000u32
}

/// The integer significand `m` of a finite number `m * 2^k`.
pub open spec fn f32_significand(bits: u32) -> nat {
    if f32_biased(bits) == 0 {
        f32_fraction(bits)
    } else {
        f32_fraction(bits) + 0x80_0000
    }
}

/// The power `k` of a finite number `m * 2^k`.
pub open spec fn f32_power(bits: u32) -> int {
    if f32_biased(bits) == 0 {
        -149
    } else {
        f32_biased(bits) - 150
    }
}

/// `n / d` rounded to the nearest integer, ties to the even one.
pub open spec fn rounded_quotient(n: nat, d: nat) -> nat {
    let q = n / d;
    let r = n % d;
    if 2 * r > d || (2 * r == d && q % 2 == 1) {
        q + 1
    } else {
        q
    }
}

/// The magnitude of the finite number times `scale`, rounded to an integer, ties to even.
pub open spec fn scaled_magnitude(bits: u32, scale: nat) -> nat {
    let m = f32_significand(bits);
    let k = f32_power(bits);
    if k >= 0 {
        m * scale * two_to(k as nat)
    } else {
        rounded_quotient(m * scale, two_to((-k) as nat))
    }
}

pub open spec fn sign_text(bits: u32) -> Seq<char> {
    if f32_negative(bits) {
        "-"@
    } else {
        Seq::empty()
    }
}

pub open spec fn non_finite_text(bits: u32) -> Seq<char> {
    if f32_fraction(bits) != 0 {
        "NaN"@
    } else if f32_negative(bits) {
        "-inf"@
    } else {
        "inf"@
    }
}

/// The number written with no decimals, as `format!("{:.0}", x)` writes it: the sign of
/// negative numbers (zero too), the magnitude rounded half to even, and "NaN" or "inf".
pub open spec fn units_text(bits: u32) -> Seq<char> {
    if f32_biased(bits) == 255 {
        non_finite_text(bits)
    } else {
        sign_text(bits) + decimal_chars(scaled_magnitude(bits, 1))
    }
}

/// The number written with one decimal, as `format!("{:.1}", x)` writes it.
pub open spec fn tenths_text(bits: u32) -> Seq<char> {
    if f32_biased(bits) == 255 {
        non_finite_text(bits)
    } else {
        let t = scaled_magnitude(bits, 10);
        sign_text(bits) + decimal_chars(t / 10) + "."@ + seq![digit_char(t % 10)]
    }
}

proof fn lemma_two_to_monotone(a: nat, b: nat)
    requires
        a <= b,
    ensures
        two_to(a) <= two_to(b),
    decreases b,
{
    if a < b {
        lemma_two_to_monotone(a, (b - 1) as nat);
    }
}

proof fn lemma_two_to_add(a: nat, b: nat)
    ensures
        two_to(a + b) == two_to(a) * two_to(b),
    decreases b,
{
    if b > 0 {
        let c = (b - 1) as nat;
        lemma_two_to_add(a, c);
        let t = two_to(a);
        let x = two_to(c);
        assert(two_to(a + b) == 2 * two_to(a + c));
        assert(two_to(b) == 2 * x);
        assert(t * (2 * x) == 2 * (t * x)) by (nonlinear_arith);
        assert(two_to(a + c) == t * x);
        assert(two_to(a + b) == t * two_to(b));
    } else {
        assert(two_to(0) == 1);
        assert(two_to(a) * 1 == two_to(a));
    }
}

proof fn lemma_two_to_constants()
    ensures
        two_to(24) == 0x100_0000,
        two_to(28) == 0x1000_0000,
        two_to(128) == 0x1_0000_0000_0000_0000_0000_0000_0000_0000,
{
    reveal_with_fuel(two_to, 29);
    assert(two_to(8) == 256);
    assert(two_to(24) == 0x100_0000);
    assert(two_to(28) == 0x1000_0000);
    lemma_two_to_add(24, 24);
    assert(two_to(48) == 0x1_0000_0000_0000);
    lemma_two_to_add(48, 48);
    assert(two_to(96) == 0x1_0000_0000_0000_0000_0000_0000);
    lemma_two_to_add(96, 24);
    assert(two_to(120) == 0x100_0000_0000_0000_0000_0000_0000_0000);
    lemma_two_to_add(120, 8);
}

fn digit_of(d: u128) -> (c: char)
    requires
        d < 10,
    ensures
        c == digit_char(d as nat),
{
    match d {
        0 => '0',
        1 => '1',
        2 => '2',
        3 => '3',
        4 => '4',
        5 => '5',
        6 => '6',
        7 => '7',
        8 => '8',
        _ => '9',
    }
}

/// Appends the decimal digits of `n`.
fn push_wide_decimal(s: &mut String, n: u128)
    ensures
        final(s)@ == old(s)@ + decimal_chars(n as nat),
    decreases n,
{
    if n < 10 {
        push_char(s, digit_of(n));
        assert(decimal_chars(n as nat) =~= seq![digit_char(n as nat)]);
    } else {
        push_wide_decimal(s, n / 10);
        push_char(s, digit_of(n % 10));
    }
}

/// `m * 2^k` for a significand and a non-negative power of a finite number.
fn shifted_value(m: u32, k: u32) -> (r: u128)
    requires
        m < 0x100_0000,
        k <= 104,
    ensures
        r == m * two_to(k as nat),
{
    proof {
        lemma_two_to_constants();
    }
    let mut v: u128 = m as u128;
    let mut i: u32 = 0;
    assert(two_to(0) == 1);
    assert(m * two_to(0) == m);
    while i < k
        invariant
            i <= k,
            k <= 104,
            m < 0x100_0000,
            v == m * two_to(i as nat),
            v < two_to(24 + i as nat),
            two_to(128) == 0x1_0000_0000_0000_0000_0000_0000_0000_0000,
        decreases k - i,
    {
        proof {
            lemma_two_to_monotone(25 + i as nat, 128);
            assert(two_to(25 + i as nat) == 2 * two_to(24 + i as nat));
        }
        let ghost before = v;
        v = v * 2;
        i += 1;
        proof {
            let t = two_to((i - 1) as nat);
            assert(two_to(i as nat) == 2 * t);
            assert(m * (2 * t) == 2 * (m * t)) by (nonlinear_arith);
        }
    }
    v
}

/// `n / 2^s` rounded to the nearest integer, ties to even.
fn rounded_shift(n: u64, s: u32) -> (r: u128)
    requires
        n < 0x1000_0000,
    ensures
        r == rounded_quotient(n as nat, two_to(s as nat)),
{
    proof {
        lemma_two_to_constants();
    }
    if s > 28 {
        proof {
            lemma_two_to_monotone(28, (s - 1) as nat);
            assert(two_to(s as nat) == 2 * two_to((s - 1) as nat));
            let nn = n as nat;
            let dd = two_to(s as nat);
            assert(nn / dd == 0 && nn % dd == nn) by (nonlinear_arith)
                requires
                    nn < dd,
            ;
        }
        return 0;
    }
    let mut d: u64 = 1;
    let mut i: u32 = 0;
    while i < s
        invariant
            i <= s,
            s <= 28,
            d == two_to(i as nat),
            1 <= d <= 0x1000_0000,
            two_to(28) == 0x1000_0000,
        decreases s - i,
    {
        proof {
            lemma_two_to_monotone((i + 1) as nat, 28);
        }
        d = d * 2;
        i += 1;
    }
    let q = n / d;
    let r = n % d;
    if 2 * r > d || (2 * r == d && q % 2 == 1) {
        (q + 1) as u128
    } else {
        q as u128
    }
}

/// The significand and power fields of a finite bit pattern.
fn finite_parts(bits: u32) -> (r: (u32, u32, bool))
    requires
        f32_biased(bits) != 255,
    ensures
        r.0 == f32_significand(bits),
        r.0 < 0x100_0000,
        r.2 == (f32_power(bits) >= 0),
        r.2 ==> r.1 == f32_power(bits) && r.1 <= 104,
        !r.2 ==> r.1 == -f32_power(bits),
{
    let biased = (bits / 0x80_0000u32) % 0x100u32;
    let fraction = bits % 0x80_0000u32;
    let m: u32 = if biased == 0 {
        fraction
    } else {
        fraction + 0x80_0000u32
    };
    let effective: u32 = if biased == 0 {
        1
    } else {
        biased
    };
    if effective >= 150 {
        (m, effective - 150, true)
    } else {
        (m, 150 - effective, false)
    }
}

/// Writes the number with no decimals, as `format!("{:.0}", x)` does.
pub fn format_units(x: Scalar) -> (r: String)
    ensures
        r@ == units_text(x.bits),
{
    let bits = x.bits;
    let biased = (bits / 0x80_0000u32) % 0x100u32;
    if biased == 255 {
        return if bits % 0x80_0000u32 != 0 {
            string_of("NaN")
        } else if bits >= 0x8000_0000u32 {
            string_of("-inf")
        } else {
            string_of("inf")
        };
    }
    let mut s = if bits >= 0x8000_0000u32 {
        string_of("-")
    } else {
        String::new()
    };
    let (m, k, whole) = finite_parts(bits);
    let magnitude = if whole {
        shifted_value(m, k)
    } else {
        rounded_shift(m as u64, k)
    };
    push_wide_decimal(&mut s, magnitude);
    s
}

/// Writes the number with one decimal, as `format!("{:.1}", x)` does.
pub fn format_tenths(x: Scalar) -> (r: String)
    ensures
        r@ == tenths_text(x.bits),
{
    let bits = x.bits;
    let biased = (bits / 0x80_0000u32) % 0x100u32;
    if biased == 255 {
        return if bits % 0x80_0000u32 != 0 {
            string_of("NaN")
        } else if bits >= 0x8000_0000u32 {
            string_of("-inf")
        } else {
            string_of("inf")
        };
    }
    let mut s = if bits >= 0x8000_0000u32 {
        string_of("-")
    } else {
        String::new()
    };
    let (m, k, whole) = finite_parts(bits);
    if whole {
        let value = shifted_value(m, k);
        push_wide_decimal(&mut s, value);
        s.append(".");
        push_char(&mut s, '0');
        proof {
            let t = m * 10 * two_to(k as nat);
            let v = m * two_to(k as nat);
            assert(t == v * 10) by (nonlinear_arith)
                requires
                    t == m * 10 * two_to(k as nat),
                    v == m * two_to(k as nat),
            ;
            assert(t / 10 == v && t % 10 == 0) by (nonlinear_arith)
                requires
                    t == v * 10,
                    v >= 0,
            ;
            assert(digit_char(0) == '0');
        }
    } else {
        let tenths = rounded_shift((m as u64) * 10, k);
        push_wide_decimal(&mut s, tenths / 10);
        s.append(".");
        push_char(&mut s, digit_of(tenths % 10));
    }
    s
}

} // verus!

//! Single-precision numbers held as their IEEE-754 bit patterns: the checks
//! and conversions the assembler needs, done on integers.
use crate::text::{decimal, lemma_decimal_len, lemma_decimal_nonempty, pow10, push_decimal, push_signed, signed_decimal};
use vstd::arithmetic::power2::*;
use vstd::prelude::*;

verus! {

pub open spec fn sign_bit(bits: u32) -> bool {
    bits >= 0x8000_0000u32
}

pub open spec fn exponent_field(bits: u32) -> nat {
    ((bits / 0x80_0000u32) % 256) as nat
}

pub open spec fn fraction_field(bits: u32) -> nat {
    (bits % 0x80_0000u32) as nat
}

/// Whether a number can be written as an immediate of a floating-point
/// `fmov`: zero, or `±(16 + m) / 16 * 2^r` with `m` in `0..=15` and `r` in
/// `-3..=4`.
pub open spec fn float_is_immediate(bits: u32) -> bool {
    bits % 0x8000_0000u32 == 0 || (124 <= exponent_field(bits) <= 131 && fraction_field(bits)
        % 0x8_0000 == 0)
}

pub open spec fn pow5(k: nat) -> nat
    decreases k,
{
    if k == 0 { 1 } else { 5 * pow5((k - 1) as nat) }
}

/// `d` without its trailing decimal zeros, and how many were taken off.
pub open spec fn strip_zeros(d: nat) -> (nat, nat)
    decreases d,
{
    if d > 0 && d % 10 == 0 {
        let (s, z) = strip_zeros(d / 10);
        (s, z + 1)
    } else {
        (d, 0)
    }
}

/// Scientific notation of `d * 10^shift`: the first digit, the other digits
/// after a point when there are any, then `e` and the exponent.
pub open spec fn scientific(d: nat, shift: int) -> Seq<char> {
    let s = decimal(d);
    let mantissa = if s.len() > 1 { seq![s[0], '.'] + s.subrange(1, s.len() as int) } else { s };
    mantissa + seq!['e'] + signed_decimal(s.len() - 1 + shift)
}

/// The shortest decimal form of an immediate-encodable number, as `{:e}`
/// writes it (`3e0`, `1.25e-1`, `-0e0`).
pub open spec fn immediate_text(bits: u32) -> Seq<char> {
    let sign = if sign_bit(bits) { seq!['-'] } else { Seq::<char>::empty() };
    if bits % 0x8000_0000u32 == 0 {
        sign + seq!['0', 'e', '0']
    } else {
        let n = 16 + fraction_field(bits) / 0x8_0000;
        let k = (131 - exponent_field(bits)) as nat;
        let (d, z) = strip_zeros(n * pow5(k));
        sign + scientific(d, z - k)
    }
}

/// How a floating-point operand is written: its decimal form when it is an
/// immediate, else `=` and the bit pattern, for a literal-pool load.
pub open spec fn float_text(bits: u32) -> Seq<char> {
    if float_is_immediate(bits) {
        immediate_text(bits)
    } else {
        seq!['='] + decimal(bits as nat)
    }
}

pub fn float_can_be_immediate(bits: u32) -> (r: bool)
    ensures
        r == float_is_immediate(bits),
{
    let exponent = (bits / 0x80_0000) % 256;
    let fraction = bits % 0x80_0000;
    bits % 0x8000_0000 == 0 || (124 <= exponent && exponent <= 131 && fraction % 0x8_0000 == 0)
}

fn power_of_five(k: u64) -> (r: u64)
    requires
        k <= 7,
    ensures
        r == pow5(k as nat),
        1 <= r <= 78125,
{
    let mut r: u64 = 1;
    let mut i: u64 = 0;
    while i < k
        invariant
            i <= k <= 7,
            r == pow5(i as nat),
            1 <= pow5(i as nat) <= 78125,
        decreases k - i,
    {
        proof {
            reveal_with_fuel(pow5, 8);
        }
        r = r * 5;
        i = i + 1;
    }
    r
}

fn strip(d: u64) -> (r: (u64, u64))
    ensures
        r.0 as nat == strip_zeros(d as nat).0,
        r.1 as nat == strip_zeros(d as nat).1,
    decreases d,
{
    if d > 0 && d % 10 == 0 {
        let (s, z) = strip(d / 10);
        proof {
            assert(strip_zeros(d as nat).1 == strip_zeros((d / 10) as nat).1 + 1);
            assert(strip_zeros((d / 10) as nat).1 <= d) by {
                lemma_strip_bound((d / 10) as nat);
            }
        }
        (s, z + 1)
    } else {
        (d, 0)
    }
}

proof fn lemma_strip_bound(d: nat)
    ensures
        strip_zeros(d).1 <= d,
    decreases d,
{
    if d > 0 && d % 10 == 0 {
        lemma_strip_bound(d / 10);
    }
}

/// Appends `scientific(d, shift)` to `out`.
fn push_scientific(out: &mut String, d: u64, shift: i64)
    requires
        d < 10_000_000,
        -100 <= shift <= 100,
    ensures
        final(out)@ == old(out)@ + scientific(d as nat, shift as int),
{
    let mut digits = String::new();
    push_decimal(&mut digits, d);
    proof {
        lemma_decimal_nonempty(d as nat);
        lemma_pow10_7();
        lemma_decimal_len(d as nat, 7);
    }
    let length = digits.as_str().unicode_len();
    let first = digits.as_str().substring_char(0, 1);
    out.append(first);
    if length > 1 {
        proof { reveal_strlit("."); }
        out.append(".");
        let rest = digits.as_str().substring_char(1, length);
        out.append(rest);
    }
    proof { reveal_strlit("e"); }
    out.append("e");
    let exponent: i64 = (length as i64) - 1 + shift;
    push_signed(out, exponent);
    proof {
        let s = decimal(d as nat);
        if s.len() > 1 {
            assert(seq![s[0], '.'] + s.subrange(1, s.len() as int) =~= s.subrange(0, 1) + seq!['.'] + s.subrange(1, s.len() as int));
        } else {
            assert(s =~= s.subrange(0, 1));
        }
    }
    assert(final(out)@ =~= old(out)@ + scientific(d as nat, shift as int));
}

proof fn lemma_strip_small(d: nat, k: nat)
    requires
        0 < d < pow10(k),
    ensures
        strip_zeros(d).1 < k,
        0 < strip_zeros(d).0 <= d,
    decreases d,
{
    if d % 10 == 0 {
        if k == 0 {
            assert(pow10(0) == 1);
        }
        assert(d / 10 < pow10((k - 1) as nat)) by (nonlinear_arith)
            requires d < pow10(k), pow10(k) == 10 * pow10((k - 1) as nat);
        lemma_strip_small(d / 10, (k - 1) as nat);
    } else if k == 0 {
        assert(pow10(0) == 1);
    }
}

proof fn lemma_pow10_7()
    ensures
        pow10(7) == 10_000_000,
{
    reveal_with_fuel(pow10, 8);
}

/// Appends `float_text(bits)` to `out`.
pub fn push_float(out: &mut String, bits: u32)
    ensures
        final(out)@ == old(out)@ + float_text(bits),
{
    if !float_can_be_immediate(bits) {
        proof { reveal_strlit("="); }
        out.append("=");
        push_decimal(out, bits as u64);
        assert(final(out)@ =~= old(out)@ + float_text(bits));
        return;
    }
    if bits >= 0x8000_0000 {
        proof { reveal_strlit("-"); }
        out.append("-");
    }
    let ghost signed = out@;
    if bits % 0x8000_0000 == 0 {
        proof { reveal_strlit("0e0"); }
        out.append("0e0");
        assert(final(out)@ =~= old(out)@ + float_text(bits));
        return;
    }
    let n: u64 = 16 + ((bits % 0x80_0000) / 0x8_0000) as u64;
    let k: u64 = (131 - (bits / 0x80_0000) % 256) as u64;
    let p = power_of_five(k);
    assert(n <= 31);
    assert(n * p <= 31 * 78125) by (nonlinear_arith)
        requires n <= 31, p <= 78125;
    assert(n * p >= 16) by (nonlinear_arith)
        requires n >= 16, p >= 1;
    let (d, z) = strip(n * p);
    proof {
        lemma_pow10_7();
        lemma_strip_small((n * p) as nat, 7);
    }
    push_scientific(out, d, (z as i64) - (k as i64));
    assert(final(out)@ =~= old(out)@ + float_text(bits));
}

/// The integer that `as i64` gives for a single-precision number: truncated
/// toward zero, saturated at the ends of `i64`, zero for a NaN.
pub open spec fn float_truncate(bits: u32) -> int {
    let e = exponent_field(bits);
    let f = fraction_field(bits);
    if e == 255 {
        if f != 0 { 0 } else if sign_bit(bits) { i64::MIN as int } else { i64::MAX as int }
    } else {
        let m = if e == 0 { f } else { f + 0x80_0000 };
        let magnitude: int = if e >= 150 { (m * pow2((e - 150) as nat)) as int } else { m as int / pow2((150 - e) as nat) as int };
        let v = if sign_bit(bits) { -magnitude } else { magnitude };
        if v < i64::MIN { i64::MIN as int } else if v > i64::MAX { i64::MAX as int } else { v }
    }
}

fn power_of_two(k: u64) -> (r: u64)
    requires
        k < 64,
    ensures
        r == pow2(k as nat),
{
    let mut r: u64 = 1;
    let mut i: u64 = 0;
    proof { lemma2_to64(); }
    while i < k
        invariant
            i <= k < 64,
            r == pow2(i as nat),
        decreases k - i,
    {
        proof {
            lemma_pow2_unfold((i + 1) as nat);
            lemma_pow2_strictly_increases((i + 1) as nat, 64);
            lemma2_to64_rest();
        }
        r = r * 2;
        i = i + 1;
    }
    r
}

pub fn float_to_integer(bits: u32) -> (r: i64)
    ensures
        r as int == float_truncate(bits),
{
    let e: u32 = (bits / 0x80_0000) % 256;
    let f: u32 = bits % 0x80_0000;
    let negative = bits >= 0x8000_0000;
    if e == 255 {
        return if f != 0 { 0 } else if negative { i64::MIN } else { i64::MAX };
    }
    let m: u64 = if e == 0 { f as u64 } else { f as u64 + 0x80_0000 };
    let magnitude: u64;
    if e >= 150 {
        let s = (e - 150) as u64;
        if s >= 40 {
            proof {
                lemma2_to64_rest();
                if s > 40 { lemma_pow2_strictly_increases(40, s as nat); }
                assert(m * pow2(s as nat) >= 0x80_0000 * pow2(40)) by (nonlinear_arith)
                    requires m >= 0x80_0000, pow2(s as nat) >= pow2(40);
            }
            return if negative { i64::MIN } else { i64::MAX };
        }
        let p = power_of_two(s);
        proof {
            if s < 39 { lemma_pow2_strictly_increases(s as nat, 39); }
            lemma_pow2_pos(s as nat);
            lemma2_to64_rest();
            assert(m * p < 0x100_0000 * pow2(39)) by (nonlinear_arith)
                requires m < 0x100_0000, p <= pow2(39), p > 0;
        }
        magnitude = m * p;
    } else {
        let s = (150 - e) as u64;
        if s >= 24 {
            proof {
                lemma2_to64();
                if s > 24 { lemma_pow2_strictly_increases(24, s as nat); }
                assert(m < pow2(s as nat));
                vstd::arithmetic::div_mod::lemma_basic_div(m as int, pow2(s as nat) as int);
            }
            magnitude = 0;
        } else {
            let p = power_of_two(s);
            proof { lemma_pow2_pos(s as nat); }
            magnitude = m / p;
            proof {
                vstd::arithmetic::div_mod::lemma_div_is_ordered_by_denominator(m as int, 1, p as int);
            }
        }
    }
    proof { lemma2_to64_rest(); }
    assert(magnitude < 0x8000_0000_0000_0000u64);
    if negative { -(magnitude as i64) } else { magnitude as i64 }
}

pub open spec fn log2_floor(a: nat) -> nat
    decreases a,
{
    if a < 2 { 0 } else { 1 + log2_floor(a / 2) }
}

proof fn lemma_log2_bounds(a: nat)
    requires
        a >= 1,
    ensures
        pow2(log2_floor(a)) <= a < pow2(log2_floor(a) + 1),
    decreases a,
{
    if a >= 2 {
        lemma_log2_bounds(a / 2);
        let h = log2_floor(a / 2);
        lemma_pow2_unfold(h + 1);
        lemma_pow2_unfold(h + 2);
    } else {
        lemma2_to64();
    }
}

/// `a / 2^s` rounded to the nearest integer, ties to the even one.
pub open spec fn rounded_quotient(a: nat, s: nat) -> nat {
    let q = a / pow2(s);
    let r = a % pow2(s);
    let half = pow2((s - 1) as nat);
    if r > half || (r == half && q % 2 == 1) { q + 1 } else { q }
}

/// The bit pattern of the single-precision number nearest to `x` (ties to
/// even), as `x as f32` gives it.
pub open spec fn integer_to_float(x: int) -> nat {
    if x == 0 {
        0
    } else {
        let a = (if x < 0 { -x } else { x }) as nat;
        let h = log2_floor(a);
        let sign: nat = if x < 0 { 0x8000_0000 } else { 0 };
        if h <= 23 {
            (sign + (h + 127) * 0x80_0000 + (a * pow2((23 - h) as nat) - 0x80_0000)) as nat
        } else {
            let q = rounded_quotient(a, (h - 23) as nat);
            if q == 0x100_0000 {
                sign + (h + 128) * 0x80_0000
            } else {
                (sign + (h + 127) * 0x80_0000 + (q - 0x80_0000)) as nat
            }
        }
    }
}

pub fn integer_to_float_bits(x: i64) -> (r: u32)
    ensures
        r as nat == integer_to_float(x as int),
{
    if x == 0 {
        return 0;
    }
    let a: u64 = if x < 0 { (0i128 - (x as i128)) as u64 } else { x as u64 };
    let sign: u64 = if x < 0 { 0x8000_0000 } else { 0 };
    let mut t: u64 = a;
    let mut h: u64 = 0;
    proof {
        lemma_log2_bounds(a as nat);
        lemma2_to64_rest();
        if log2_floor(a as nat) >= 64 {
            if log2_floor(a as nat) > 64 { lemma_pow2_strictly_increases(64, log2_floor(a as nat)); }
        }
    }
    while t >= 2
        invariant
            t >= 1,
            log2_floor(a as nat) == h + log2_floor(t as nat),
            log2_floor(a as nat) < 64,
        decreases t,
    {
        t = t / 2;
        h = h + 1;
    }
    proof {
        lemma_log2_bounds(a as nat);
        lemma2_to64_rest();
        if h >= 64 {
            if h > 64 { lemma_pow2_strictly_increases(64, h as nat); }
        }
        lemma_pow2_strictly_increases(23, 24);
        lemma2_to64();
    }
    assert(h == log2_floor(a as nat));
    assert(h < 64);
    if h <= 23 {
        let p = power_of_two(23 - h);
        proof {
            lemma_pow2_adds((23 - h) as nat, h as nat);
            lemma_pow2_adds((23 - h) as nat, (h + 1) as nat);
            assert((23 - h) as nat + h as nat == 23);
            assert((23 - h) as nat + (h + 1) as nat == 24);
            assert(pow2(23) == p * pow2(h as nat));
            assert(pow2(24) == p * pow2((h + 1) as nat));
            assert(pow2(h as nat) * p <= a * p) by (nonlinear_arith)
                requires pow2(h as nat) <= a;
            assert(a * p < pow2((h + 1) as nat) * p) by (nonlinear_arith)
                requires a < pow2((h + 1) as nat), p > 0;
            lemma_pow2_pos((23 - h) as nat);
            lemma2_to64();
            assert(pow2(h as nat) * p == p * pow2(h as nat)) by (nonlinear_arith);
            assert(pow2((h + 1) as nat) * p == p * pow2((h + 1) as nat)) by (nonlinear_arith);
            assert(0x80_0000 <= a * p < 0x100_0000);
        }
        let frac = a * p - 0x80_0000;
        return (sign + (h + 127) * 0x80_0000 + frac) as u32;
    }
    let s = h - 23;
    let p = power_of_two(s);
    proof {
        lemma_pow2_pos(s as nat);
        lemma_pow2_adds(s as nat, 23);
        lemma_pow2_adds(s as nat, 24);
        assert((a as int) / (p as int) >= 0x80_0000) by {
            vstd::arithmetic::div_mod::lemma_div_is_ordered((p * 0x80_0000) as int, a as int, p as int);
            vstd::arithmetic::div_mod::lemma_div_multiples_vanish(0x80_0000, p as int);
        }
        assert((a as int) / (p as int) < 0x100_0000) by {
            vstd::arithmetic::div_mod::lemma_div_by_multiple_is_strongly_ordered(a as int, (p * 0x100_0000) as int, 0x100_0000, p as int);
            vstd::arithmetic::div_mod::lemma_div_multiples_vanish(0x100_0000, p as int);
            vstd::arithmetic::mul::lemma_mul_is_commutative(p as int, 0x100_0000);
        }
        lemma_pow2_unfold(s as nat);
    }
    let q0 = a / p;
    let rem = a % p;
    let half = p / 2;
    let q = if rem > half || (rem == half && q0 % 2 == 1) { q0 + 1 } else { q0 };
    if q == 0x100_0000 {
        (sign + (h + 128) * 0x80_0000) as u32
    } else {
        (sign + (h + 127) * 0x80_0000 + (q - 0x80_0000)) as u32
    }
}

} // verus!

//! Native fixed-width arithmetic on bit patterns: what the gadgets must
//! agree with, and what constant operands are folded by.
//!
//! A value of width `bits` is kept as its bit pattern, a number below
//! `2^bits`, in a `u128`; a signed value is the two's-complement reading of
//! its pattern.

use vstd::arithmetic::div_mod::{lemma_mod_mod, lemma_mul_mod_noop_general, lemma_small_mod};
use vstd::arithmetic::power2::{
    lemma2_to64,
    lemma_pow2_adds,
    lemma_pow2_pos,
    lemma_pow2_unfold,
    pow2,
};
use vstd::arithmetic::power::{
    lemma_pow0,
    lemma_pow1,
    lemma_pow_adds,
    lemma_pow_mod_noop,
    lemma_pow_multiplies,
    lemma_square_is_pow2,
    pow,
};
use vstd::prelude::*;

verus! {

/// The widths an integer can have.
pub open spec fn is_integer_width(bits: nat) -> bool {
    bits == 8 || bits == 16 || bits == 32 || bits == 64 || bits == 128
}

/// The widths an exponent can have: never more than 32 bits, which bounds
/// the length of the exponentiation ladder.
pub open spec fn is_magnitude_width(bits: nat) -> bool {
    bits == 8 || bits == 16 || bits == 32
}

/// The pattern of the product of two patterns, truncated to `bits` bits.
pub open spec fn wrapping_mul_spec(a: nat, b: nat, bits: nat) -> nat {
    (a * b) % pow2(bits)
}

/// The pattern of `base` to the power `exponent`, truncated to `bits` bits.
pub open spec fn wrapping_pow_spec(base: nat, exponent: nat, bits: nat) -> nat {
    (pow(base as int, exponent) % (pow2(bits) as int)) as nat
}

/// The two's-complement reading of a pattern of `bits` bits.
pub open spec fn signed_value(pattern: nat, bits: nat) -> int {
    if 2 * pattern >= pow2(bits) {
        pattern - pow2(bits)
    } else {
        pattern as int
    }
}

/// The pattern of `bits` bits whose two's-complement reading is congruent to
/// `value`.
pub open spec fn pattern_of(value: int, bits: nat) -> nat {
    (value % (pow2(bits) as int)) as nat
}

/// The native value that a pattern stands for: its two's-complement reading
/// in a signed type, the pattern itself in an unsigned one.
pub open spec fn native_of(pattern: nat, bits: nat, signed: bool) -> int {
    if signed {
        signed_value(pattern, bits)
    } else {
        pattern as int
    }
}

/// The native value of the given width and signedness that is congruent to
/// `value`: what native arithmetic keeps of a result that does not fit.
pub open spec fn wrap(value: int, bits: nat, signed: bool) -> int {
    native_of(pattern_of(value, bits), bits, signed)
}

/// The pattern `value` truncated to `bits` bits.
pub fn truncate(value: u128, bits: usize) -> (r: u128)
    requires
        is_integer_width(bits as nat),
    ensures
        r as nat == (value as nat) % pow2(bits as nat),
        r < pow2(bits as nat),
{
    proof {
        lemma_width_moduli();
        if bits == 128 {
            lemma_small_mod(value as nat, pow2(128));
        }
    }
    if bits == 8 {
        value % 0x100
    } else if bits == 16 {
        value % 0x1_0000
    } else if bits == 32 {
        value % 0x1_0000_0000
    } else if bits == 64 {
        value % 0x1_0000_0000_0000_0000
    } else {
        value
    }
}

/// Whether `value` is a pattern of `bits` bits.
pub fn fits_width(value: u128, bits: usize) -> (r: bool)
    requires
        is_integer_width(bits as nat),
    ensures
        r == (value < pow2(bits as nat)),
{
    proof {
        lemma_width_moduli();
    }
    if bits == 8 {
        value < 0x100
    } else if bits == 16 {
        value < 0x1_0000
    } else if bits == 32 {
        value < 0x1_0000_0000
    } else if bits == 64 {
        value < 0x1_0000_0000_0000_0000
    } else {
        true
    }
}

/// The product of two patterns, truncated to `bits` bits.
pub fn wrapping_mul(a: u128, b: u128, bits: usize) -> (r: u128)
    requires
        is_integer_width(bits as nat),
    ensures
        r == wrapping_mul_spec(a as nat, b as nat, bits as nat),
        r < pow2(bits as nat),
{
    let wide: u128 = a.wrapping_mul(b);
    proof {
        lemma_width_moduli();
        assert(wide as nat == (a as nat * b as nat) % 0x1_0000_0000_0000_0000_0000_0000_0000_0000nat);
        lemma_truncate_twice((a as nat * b as nat) as int, bits as nat);
    }
    truncate(wide, bits)
}

/// `base` to the power `exponent`, truncated to `bits` bits: exponentiation
/// by squaring, every product truncated.
pub fn wrapping_pow(base: u128, exponent: u32, bits: usize) -> (r: u128)
    requires
        is_integer_width(bits as nat),
    ensures
        r == wrapping_pow_spec(base as nat, exponent as nat, bits as nat),
        r < pow2(bits as nat),
{
    let ghost m: int = pow2(bits as nat) as int;
    proof {
        lemma_pow2_pos(bits as nat);
        lemma_width_moduli();
    }
    let mut acc: u128 = truncate(1, bits);
    let mut b: u128 = truncate(base, bits);
    let mut e: u32 = exponent;
    proof {
        lemma_small_mod(1, m as nat);
        lemma_pow_mod_noop(base as int, exponent as nat, m);
        lemma_mul_mod_noop_general(1, pow(b as int, e as nat), m);
    }
    while e > 0
        invariant
            is_integer_width(bits as nat),
            m == pow2(bits as nat),
            m > 0,
            acc < m,
            b < m,
            (acc * pow(b as int, e as nat)) % m == pow(base as int, exponent as nat) % m,
        decreases e,
    {
        let ghost acc0: int = acc as int;
        let ghost b0: int = b as int;
        let ghost e0: nat = e as nat;
        if e % 2 == 1 {
            acc = wrapping_mul(acc, b, bits);
        }
        b = wrapping_mul(b, b, bits);
        e = e / 2;
        proof {
            let f: int = if e0 % 2 == 1 {
                b0
            } else {
                1
            };
            let q: nat = e0 / 2;
            lemma_pow_halve(b0, e0);
            assert(acc as int == (acc0 * f) % m) by {
                if e0 % 2 == 1 {
                } else {
                    lemma_small_mod(acc0 as nat, m as nat);
                }
            }
            assert(b as int == (b0 * b0) % m);
            // (acc0 * f % m) * pow(b0 * b0 % m, q) is congruent to acc0 * f * pow(b0 * b0, q).
            lemma_pow_mod_noop(b0 * b0, q, m);
            lemma_mul_mod_noop_general(acc0 * f, pow(b as int, q), m);
            lemma_mul_mod_noop_general(acc0 * f, pow(b0 * b0, q), m);
            assert((acc0 * f) * pow(b0 * b0, q) == acc0 * pow(b0, e0)) by (nonlinear_arith)
                requires
                    pow(b0, e0) == pow(b0 * b0, q) * f,
            ;
        }
    }
    proof {
        lemma_pow0(b as int);
        lemma_small_mod(acc as nat, m as nat);
    }
    acc
}

/// The two's-complement reading of a pattern.
pub fn to_signed(pattern: u128, bits: usize) -> (r: i128)
    requires
        is_integer_width(bits as nat),
        pattern < pow2(bits as nat),
    ensures
        r == signed_value(pattern as nat, bits as nat),
{
    proof {
        lemma_width_moduli();
    }
    if bits == 8 {
        if pattern >= 0x80 {
            pattern as i128 - 0x100
        } else {
            pattern as i128
        }
    } else if bits == 16 {
        if pattern >= 0x8000 {
            pattern as i128 - 0x1_0000
        } else {
            pattern as i128
        }
    } else if bits == 32 {
        if pattern >= 0x8000_0000 {
            pattern as i128 - 0x1_0000_0000
        } else {
            pattern as i128
        }
    } else if bits == 64 {
        if pattern >= 0x8000_0000_0000_0000 {
            pattern as i128 - 0x1_0000_0000_0000_0000
        } else {
            pattern as i128
        }
    } else {
        if pattern >= 0x8000_0000_0000_0000_0000_0000_0000_0000 {
            let low: u128 = pattern - 0x8000_0000_0000_0000_0000_0000_0000_0000;
            low as i128 + i128::MIN
        } else {
            pattern as i128
        }
    }
}

/// Whether `value` is in the range of the signed integers of `bits` bits.
pub open spec fn in_signed_range(value: int, bits: nat) -> bool {
    -(pow2(bits) as int) <= 2 * value < pow2(bits)
}

/// The pattern whose two's-complement reading is `value`.
pub fn from_signed(value: i128, bits: usize) -> (r: u128)
    requires
        is_integer_width(bits as nat),
        in_signed_range(value as int, bits as nat),
    ensures
        r == pattern_of(value as int, bits as nat),
        r < pow2(bits as nat),
        signed_value(r as nat, bits as nat) == value,
{
    proof {
        lemma_width_moduli();
    }
    if value >= 0 {
        proof {
            lemma_small_mod(value as nat, pow2(bits as nat));
        }
        value as u128
    } else {
        let r: u128 = if bits == 8 {
            (value + 0x100) as u128
        } else if bits == 16 {
            (value + 0x1_0000) as u128
        } else if bits == 32 {
            (value + 0x1_0000_0000) as u128
        } else if bits == 64 {
            (value + 0x1_0000_0000_0000_0000) as u128
        } else {
            let above: i128 = value - i128::MIN;
            above as u128 + 0x8000_0000_0000_0000_0000_0000_0000_0000
        };
        proof {
            let m: int = pow2(bits as nat) as int;
            assert(r as int == value + m);
            lemma_small_mod(r as nat, m as nat);
            vstd::arithmetic::div_mod::lemma_mod_add_multiples_vanish(value as int, m);
        }
        r
    }
}

/// The moduli of the five widths, as numbers.
pub proof fn lemma_width_moduli()
    ensures
        pow2(8) == 0x100,
        pow2(16) == 0x1_0000,
        pow2(32) == 0x1_0000_0000,
        pow2(64) == 0x1_0000_0000_0000_0000,
        pow2(128) == 0x1_0000_0000_0000_0000_0000_0000_0000_0000,
        pow2(120) == 0x100_0000_0000_0000_0000_0000_0000_0000,
        pow2(112) == 0x1_0000_0000_0000_0000_0000_0000_0000,
        pow2(96) == 0x1_0000_0000_0000_0000_0000_0000,
{
    lemma2_to64();
    lemma_pow2_adds(64, 64);
    lemma_pow2_adds(64, 32);
    lemma_pow2_adds(96, 16);
    lemma_pow2_adds(112, 8);
}

/// Truncating to 128 bits and then to a narrower width is truncating to the
/// narrower width.
pub proof fn lemma_truncate_twice(x: int, bits: nat)
    requires
        is_integer_width(bits),
    ensures
        (x % (pow2(128) as int)) % (pow2(bits) as int) == x % (pow2(bits) as int),
{
    lemma_width_moduli();
    let rest: nat = (128 - bits) as nat;
    lemma_pow2_adds(bits, rest);
    lemma_pow2_pos(bits);
    lemma_pow2_pos(rest);
    lemma_mod_mod(x, pow2(bits) as int, pow2(rest) as int);
}

/// One step of exponentiation by squaring: halving the exponent squares the
/// base, and an odd exponent leaves one factor over.
pub proof fn lemma_pow_halve(b: int, e: nat)
    requires
        e > 0,
    ensures
        pow(b, e) == pow(b * b, e / 2) * (if e % 2 == 1 {
            b
        } else {
            1
        }),
{
    let q: nat = e / 2;
    lemma_square_is_pow2(b);
    lemma_pow_multiplies(b, 2, q);
    assert(pow(b * b, q) == pow(b, 2 * q));
    if e % 2 == 1 {
        lemma_pow_adds(b, 2 * q, 1);
        lemma_pow1(b);
        assert(2 * q + 1 == e);
    } else {
        assert(2 * q == e);
    }
}

/// One step of a ladder that reads the exponent from its most significant
/// bit: squaring doubles the exponent read so far, and multiplying by the
/// base adds one to it. All of it modulo `m`.
pub proof fn lemma_ladder_step(base: int, p: nat, m: int)
    requires
        m > 0,
    ensures
        ((pow(base, p) % m) * (pow(base, p) % m)) % m == pow(base, 2 * p) % m,
        ((pow(base, 2 * p) % m) * base) % m == pow(base, 2 * p + 1) % m,
{
    let x = pow(base, p);
    lemma_pow_adds(base, p, p);
    lemma_mul_mod_noop_general(x, x, m);
    lemma_pow_adds(base, 2 * p, 1);
    lemma_pow1(base);
    lemma_mul_mod_noop_general(pow(base, 2 * p), base, m);
}

/// A pattern and the native value it stands for are congruent, and the
/// pattern is the one that belongs to the native value.
pub proof fn lemma_native_of(pattern: nat, bits: nat, signed: bool)
    requires
        pattern < pow2(bits),
    ensures
        pattern_of(native_of(pattern, bits, signed), bits) == pattern,
        wrap(native_of(pattern, bits, signed), bits, signed) == native_of(pattern, bits, signed),
{
    let m = pow2(bits) as int;
    lemma_small_mod(pattern, pow2(bits));
    if signed && 2 * pattern >= pow2(bits) {
        vstd::arithmetic::div_mod::lemma_mod_add_multiples_vanish(pattern - m, m);
    }
}

/// Wrapped multiplication is native wrapping multiplication: the product of
/// the patterns, truncated, stands for the native product, wrapped. This
/// holds of signed and unsigned integers alike.
pub proof fn lemma_wrapping_mul_is_native(a: nat, b: nat, bits: nat, signed: bool)
    requires
        a < pow2(bits),
        b < pow2(bits),
    ensures
        native_of(wrapping_mul_spec(a, b, bits), bits, signed) == wrap(
            native_of(a, bits, signed) * native_of(b, bits, signed),
            bits,
            signed,
        ),
{
    let m = pow2(bits) as int;
    let x = native_of(a, bits, signed);
    let y = native_of(b, bits, signed);
    lemma_native_of(a, bits, signed);
    lemma_native_of(b, bits, signed);
    lemma_mul_mod_noop_general(x, y, m);
    lemma_small_mod(a, pow2(bits));
    lemma_small_mod(b, pow2(bits));
    assert((x % m) * (y % m) == a * b);
}

/// Wrapped exponentiation is native wrapping exponentiation: the power of
/// the pattern, truncated, stands for the native power, wrapped. This holds
/// of signed and unsigned integers alike.
pub proof fn lemma_wrapping_pow_is_native(base: nat, exponent: nat, bits: nat, signed: bool)
    requires
        base < pow2(bits),
    ensures
        native_of(wrapping_pow_spec(base, exponent, bits), bits, signed) == wrap(
            pow(native_of(base, bits, signed), exponent),
            bits,
            signed,
        ),
{
    let m = pow2(bits) as int;
    let x = native_of(base, bits, signed);
    lemma_native_of(base, bits, signed);
    lemma_small_mod(base, pow2(bits));
    lemma_pow_mod_noop(x, exponent, m);
    lemma_pow_mod_noop(base as int, exponent, m);
    assert(x % m == base);
}

/// Anything to the power zero is one: also zero.
pub proof fn lemma_pow_zero_exponent(base: nat, bits: nat)
    requires
        bits > 0,
    ensures
        wrapping_pow_spec(base, 0, bits) == 1,
        wrapping_pow_spec(0, 0, bits) == 1,
{
    lemma_pow0(base as int);
    lemma_pow0(0);
    lemma_pow2_unfold(bits);
    lemma_pow2_pos((bits - 1) as nat);
    lemma_small_mod(1, pow2(bits));
}

/// Anything to the power one is itself.
pub proof fn lemma_pow_one_exponent(base: nat, bits: nat)
    requires
        base < pow2(bits),
    ensures
        wrapping_pow_spec(base, 1, bits) == base,
{
    lemma_pow1(base as int);
    lemma_small_mod(base, pow2(bits));
}

/// The second power is the wrapped square, the third power the wrapped
/// product of the wrapped square and the base.
pub proof fn lemma_pow_square_and_cube(base: nat, bits: nat)
    ensures
        wrapping_pow_spec(base, 2, bits) == wrapping_mul_spec(base, base, bits),
        wrapping_pow_spec(base, 3, bits) == wrapping_mul_spec(
            wrapping_mul_spec(base, base, bits),
            base,
            bits,
        ),
{
    let m = pow2(bits) as int;
    let b = base as int;
    lemma_pow2_pos(bits);
    lemma_square_is_pow2(b);
    lemma_pow_adds(b, 2, 1);
    lemma_pow1(b);
    assert(pow(b, 2) == b * b);
    assert(pow(b, 3) == (b * b) * b);
    lemma_mul_mod_noop_general(b * b, b, m);
    assert(base * base == b * b);
    assert((((base * base) % pow2(bits)) * base) as int == ((b * b) % m) * b);
}

} // verus!

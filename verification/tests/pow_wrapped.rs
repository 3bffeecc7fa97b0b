use snarkvm_core::boolean::Boolean;
use snarkvm_core::circuit::Circuit;
use snarkvm_core::circuit_type::CircuitType;
use snarkvm_core::count::Count;
use snarkvm_core::integer::{Integer, U16};
use snarkvm_core::mode::Mode;

const ITERATIONS: u64 = 4;

/// A small generator of test values: the same sequence on every run.
struct Sequence(u64);

impl Sequence {
    fn next(&mut self) -> u128 {
        let mut out: u128 = 0;
        for _ in 0..2 {
            self.0 = self.0.wrapping_mul(6364136223846793005).wrapping_add(1442695040888963407);
            out = (out << 64) | (self.0 ^ (self.0 >> 29)) as u128;
        }
        out
    }
}

fn mask(bits: usize) -> u128 {
    if bits == 128 {
        u128::MAX
    } else {
        (1u128 << bits) - 1
    }
}

/// The native wrapping power of the integer type of the given width and
/// signedness, on bit patterns.
fn native_pow(bits: usize, signed: bool, base: u128, exponent: u32) -> u128 {
    match (bits, signed) {
        (8, false) => (base as u8).wrapping_pow(exponent) as u128,
        (16, false) => (base as u16).wrapping_pow(exponent) as u128,
        (32, false) => (base as u32).wrapping_pow(exponent) as u128,
        (64, false) => (base as u64).wrapping_pow(exponent) as u128,
        (128, false) => base.wrapping_pow(exponent),
        (8, true) => (base as u8 as i8).wrapping_pow(exponent) as u8 as u128,
        (16, true) => (base as u16 as i16).wrapping_pow(exponent) as u16 as u128,
        (32, true) => (base as u32 as i32).wrapping_pow(exponent) as u32 as u128,
        (64, true) => (base as u64 as i64).wrapping_pow(exponent) as u64 as u128,
        (128, true) => (base as i128).wrapping_pow(exponent) as u128,
        _ => unreachable!(),
    }
}

fn check_pow<const I: usize, const S: bool, const M: usize>(
    name: &str,
    first: u128,
    second: u128,
    mode_a: Mode,
    mode_b: Mode,
    count: Count,
) {
    let mut cs = Circuit::new();
    let a = Integer::<I, S>::new(&mut cs, mode_a, first);
    let b = Integer::<M, false>::new(&mut cs, mode_b, second);
    let expected = native_pow(I, S, first, second as u32);
    cs.enter_scope(name);
    let candidate = a.pow_wrapped(&mut cs, &b);
    assert_eq!(expected, candidate.eject_value(), "{}", name);
    assert!(
        count.matches(
            cs.num_constants_in_scope(),
            cs.num_public_in_scope(),
            cs.num_private_in_scope(),
            cs.num_constraints_in_scope(),
        ),
        "{}: ({}, {}, {}, {})",
        name,
        cs.num_constants_in_scope(),
        cs.num_public_in_scope(),
        cs.num_private_in_scope(),
        cs.num_constraints_in_scope(),
    );
    // The mode of the result is the mode that is inferred before synthesis.
    let inferred = Integer::<I, S>::output_mode(&(mode_a, CircuitType::from_circuit(&b)));
    assert_eq!(inferred, candidate.eject_mode(), "{}", name);
    let closed = cs.exit_scope().unwrap();
    assert!(closed.is_exact());
    cs.reset();
    assert_eq!(cs.num_constants(), 0);
    assert_eq!(cs.num_private(), 0);
}

fn run_test<const I: usize, const S: bool, const M: usize>(mode_a: Mode, mode_b: Mode, count: Count) {
    let mut values = Sequence(I as u64 * 1000 + M as u64);
    let max_base = mask(I);
    let max_exponent = mask(M);
    let min_base = if S { 1u128 << (I - 1) } else { 0 };
    let top_base = if S { max_base >> 1 } else { max_base };
    for i in 0..ITERATIONS {
        let first = values.next() & max_base;
        let second = values.next() & max_exponent;

        let name = format!("Pow: {:?} ** {:?} {}", mode_a, mode_b, i);
        check_pow::<I, S, M>(&name, first, second, mode_a, mode_b, count);

        let name = format!("Pow Zero: {:?} ** {:?} {}", mode_a, mode_b, i);
        check_pow::<I, S, M>(&name, first, 0, mode_a, mode_b, count);

        let name = format!("Pow One: {:?} ** {:?} {}", mode_a, mode_b, i);
        check_pow::<I, S, M>(&name, first, 1, mode_a, mode_b, count);

        let name = format!("Zero Pow: {:?} ** {:?} {}", mode_a, mode_b, i);
        check_pow::<I, S, M>(&name, 0, second, mode_a, mode_b, count);

        let name = format!("One Pow: {:?} ** {:?} {}", mode_a, mode_b, i);
        check_pow::<I, S, M>(&name, 1, second, mode_a, mode_b, count);

        // Check that the square is computed correctly.
        let name = format!("Square: {:?} ** {:?} {}", mode_a, mode_b, i);
        check_pow::<I, S, M>(&name, first, 2, mode_a, mode_b, count);

        // Check that the cube is computed correctly.
        let name = format!("Cube: {:?} ** {:?} {}", mode_a, mode_b, i);
        check_pow::<I, S, M>(&name, first, 3, mode_a, mode_b, count);
    }

    // Test corner cases for exponentiation.
    check_pow::<I, S, M>("MAX ** MAX", top_base, max_exponent, mode_a, mode_b, count);
    check_pow::<I, S, M>("MIN ** 0", min_base, 0, mode_a, mode_b, count);
    check_pow::<I, S, M>("MAX ** 0", top_base, 0, mode_a, mode_b, count);
    check_pow::<I, S, M>("MIN ** 1", min_base, 1, mode_a, mode_b, count);
    check_pow::<I, S, M>("MAX ** 1", top_base, 1, mode_a, mode_b, count);
}

/// The tally of a power whose base and exponent are both not constant: it
/// does not depend on the values.
fn symbolic(bits: u64, magnitude: u64) -> Count {
    let mixed = bits + bits / 2 + 1;
    let full = bits + bits / 2 + 4;
    Count::is(
        2 * bits,
        0,
        mixed + bits + (magnitude - 1) * (2 * full + bits),
        (mixed + 1) + bits + (magnitude - 1) * (2 * (full + 1) + bits),
    )
}

/// The largest tally of a power of a base that is not constant to a
/// constant exponent.
fn constant_exponent(bits: u64, magnitude: u64) -> Count {
    let mixed = bits + bits / 2 + 1;
    let full = bits + bits / 2 + 4;
    Count::less_than(
        bits + magnitude * bits,
        0,
        mixed + (magnitude - 1) * 2 * full,
        (mixed + 1) + (magnitude - 1) * 2 * (full + 1),
    )
}

/// The tally of a power of a constant base to an exponent that is not
/// constant.
fn constant_base(bits: u64, magnitude: u64) -> Count {
    let mixed = bits + bits / 2 + 1;
    let full = bits + bits / 2 + 4;
    Count::is(
        3 * bits,
        0,
        bits + (magnitude - 1) * (full + mixed + bits),
        bits + (magnitude - 1) * (full + mixed + 2 + bits),
    )
}

fn run_all_modes<const I: usize, const S: bool, const M: usize>(is: Count, bounded: Count) {
    let bits = I as u64;
    let magnitude = M as u64;
    assert!(symbolic(bits, magnitude).matches(
        is.num_constants(),
        is.num_public(),
        is.num_private(),
        is.num_constraints()
    ));
    assert!(constant_exponent(bits, magnitude).matches(
        bounded.num_constants(),
        bounded.num_public(),
        bounded.num_private(),
        bounded.num_constraints()
    ));
    run_test::<I, S, M>(Mode::Constant, Mode::Constant, Count::is(bits, 0, 0, 0));
    run_test::<I, S, M>(Mode::Constant, Mode::Public, constant_base(bits, magnitude));
    run_test::<I, S, M>(Mode::Constant, Mode::Private, constant_base(bits, magnitude));
    run_test::<I, S, M>(Mode::Public, Mode::Constant, bounded);
    run_test::<I, S, M>(Mode::Public, Mode::Public, is);
    run_test::<I, S, M>(Mode::Public, Mode::Private, is);
    run_test::<I, S, M>(Mode::Private, Mode::Constant, bounded);
    run_test::<I, S, M>(Mode::Private, Mode::Public, is);
    run_test::<I, S, M>(Mode::Private, Mode::Private, is);
}

// Tests for u8 and i8.

#[test]
fn test_u8_pow_u8() {
    run_all_modes::<8, false, 8>(Count::is(16, 0, 301, 316), Count::less_than(72, 0, 237, 252));
}

#[test]
fn test_u8_pow_u16() {
    run_all_modes::<8, false, 16>(Count::is(16, 0, 621, 652), Count::less_than(136, 0, 493, 524));
}

#[test]
fn test_u8_pow_u32() {
    run_all_modes::<8, false, 32>(Count::is(16, 0, 1261, 1324), Count::less_than(264, 0, 1005, 1068));
}

#[test]
fn test_i8_pow_u8() {
    run_all_modes::<8, true, 8>(Count::is(16, 0, 301, 316), Count::less_than(72, 0, 237, 252));
}

#[test]
fn test_i8_pow_u16() {
    run_all_modes::<8, true, 16>(Count::is(16, 0, 621, 652), Count::less_than(136, 0, 493, 524));
}

#[test]
fn test_i8_pow_u32() {
    run_all_modes::<8, true, 32>(Count::is(16, 0, 1261, 1324), Count::less_than(264, 0, 1005, 1068));
}

// Tests for u16 and i16.

#[test]
fn test_u16_pow_u8() {
    run_all_modes::<16, false, 8>(Count::is(32, 0, 545, 560), Count::less_than(144, 0, 417, 432));
}

#[test]
fn test_u16_pow_u16() {
    run_all_modes::<16, false, 16>(Count::is(32, 0, 1121, 1152), Count::less_than(272, 0, 865, 896));
}

#[test]
fn test_u16_pow_u32() {
    run_all_modes::<16, false, 32>(Count::is(32, 0, 2273, 2336), Count::less_than(528, 0, 1761, 1824));
}

#[test]
fn test_i16_pow_u8() {
    run_all_modes::<16, true, 8>(Count::is(32, 0, 545, 560), Count::less_than(144, 0, 417, 432));
}

#[test]
fn test_i16_pow_u16() {
    run_all_modes::<16, true, 16>(Count::is(32, 0, 1121, 1152), Count::less_than(272, 0, 865, 896));
}

#[test]
fn test_i16_pow_u32() {
    run_all_modes::<16, true, 32>(Count::is(32, 0, 2273, 2336), Count::less_than(528, 0, 1761, 1824));
}

// Tests for u32 and i32.

#[test]
fn test_u32_pow_u8() {
    run_all_modes::<32, false, 8>(Count::is(64, 0, 1033, 1048), Count::less_than(288, 0, 777, 792));
}

#[test]
fn test_u32_pow_u16() {
    run_all_modes::<32, false, 16>(Count::is(64, 0, 2121, 2152), Count::less_than(544, 0, 1609, 1640));
}

#[test]
fn test_u32_pow_u32() {
    run_all_modes::<32, false, 32>(Count::is(64, 0, 4297, 4360), Count::less_than(1056, 0, 3273, 3336));
}

#[test]
fn test_i32_pow_u8() {
    run_all_modes::<32, true, 8>(Count::is(64, 0, 1033, 1048), Count::less_than(288, 0, 777, 792));
}

#[test]
fn test_i32_pow_u16() {
    run_all_modes::<32, true, 16>(Count::is(64, 0, 2121, 2152), Count::less_than(544, 0, 1609, 1640));
}

#[test]
fn test_i32_pow_u32() {
    run_all_modes::<32, true, 32>(Count::is(64, 0, 4297, 4360), Count::less_than(1056, 0, 3273, 3336));
}

// Tests for u64 and i64.

#[test]
fn test_u64_pow_u8() {
    run_all_modes::<64, false, 8>(Count::is(128, 0, 2009, 2024), Count::less_than(576, 0, 1497, 1512));
}

#[test]
fn test_u64_pow_u16() {
    run_all_modes::<64, false, 16>(Count::is(128, 0, 4121, 4152), Count::less_than(1088, 0, 3097, 3128));
}

#[test]
fn test_u64_pow_u32() {
    run_all_modes::<64, false, 32>(Count::is(128, 0, 8345, 8408), Count::less_than(2112, 0, 6297, 6360));
}

#[test]
fn test_i64_pow_u8() {
    run_all_modes::<64, true, 8>(Count::is(128, 0, 2009, 2024), Count::less_than(576, 0, 1497, 1512));
}

#[test]
fn test_i64_pow_u16() {
    run_all_modes::<64, true, 16>(Count::is(128, 0, 4121, 4152), Count::less_than(1088, 0, 3097, 3128));
}

#[test]
fn test_i64_pow_u32() {
    run_all_modes::<64, true, 32>(Count::is(128, 0, 8345, 8408), Count::less_than(2112, 0, 6297, 6360));
}

// Tests for u128 and i128.

#[test]
fn test_u128_pow_u8() {
    run_all_modes::<128, false, 8>(Count::is(256, 0, 3961, 3976), Count::less_than(1152, 0, 2937, 2952));
}

#[test]
fn test_u128_pow_u16() {
    run_all_modes::<128, false, 16>(Count::is(256, 0, 8121, 8152), Count::less_than(2176, 0, 6073, 6104));
}

#[test]
fn test_u128_pow_u32() {
    run_all_modes::<128, false, 32>(
        Count::is(256, 0, 16441, 16504),
        Count::less_than(4224, 0, 12345, 12408),
    );
}

#[test]
fn test_i128_pow_u8() {
    run_all_modes::<128, true, 8>(Count::is(256, 0, 3961, 3976), Count::less_than(1152, 0, 2937, 2952));
}

#[test]
fn test_i128_pow_u16() {
    run_all_modes::<128, true, 16>(Count::is(256, 0, 8121, 8152), Count::less_than(2176, 0, 6073, 6104));
}

#[test]
fn test_i128_pow_u32() {
    run_all_modes::<128, true, 32>(
        Count::is(256, 0, 16441, 16504),
        Count::less_than(4224, 0, 12345, 12408),
    );
}

// Exhaustive tests for u8 ^ u8 and i8 ^ u8.

fn run_exhaustive_test<const S: bool>(mode_a: Mode, mode_b: Mode, count: Count) {
    for first in 0..=255u128 {
        for second in 0..=255u128 {
            check_pow::<8, S, 8>("Pow", first, second, mode_a, mode_b, count);
        }
    }
}

#[test]
fn test_u8_constant_pow_u8_constant_exhaustive() {
    run_exhaustive_test::<false>(Mode::Constant, Mode::Constant, Count::is(8, 0, 0, 0));
}

#[test]
fn test_i8_constant_pow_u8_constant_exhaustive() {
    run_exhaustive_test::<true>(Mode::Constant, Mode::Constant, Count::is(8, 0, 0, 0));
}

#[test]
fn test_u8_private_pow_u8_public_exhaustive() {
    run_exhaustive_test::<false>(Mode::Private, Mode::Public, Count::is(16, 0, 301, 316));
}

#[test]
fn test_i8_public_pow_u8_constant_exhaustive() {
    run_exhaustive_test::<true>(Mode::Public, Mode::Constant, Count::less_than(72, 0, 237, 252));
}

#[test]
fn test_u8_constant_pow_u8_private_exhaustive() {
    run_exhaustive_test::<false>(Mode::Constant, Mode::Private, Count::is(24, 0, 267, 281));
}

/// A private base of 200 to the public power 3, in eight bits.
#[test]
fn test_boundary_private_base_public_exponent() {
    assert_eq!(200u8.wrapping_pow(3), 0);
    let mut cs = Circuit::new();
    let base = Integer::<8, false>::new(&mut cs, Mode::Private, 200);
    let exponent = Integer::<8, false>::new(&mut cs, Mode::Public, 3);
    assert_eq!((cs.num_constants(), cs.num_public(), cs.num_private(), cs.num_constraints()), (0, 8, 8, 0));
    cs.enter_scope("200 ** 3");
    let result = base.pow_wrapped(&mut cs, &exponent);
    assert_eq!(result.eject_value(), 200u8.wrapping_pow(3) as u128);
    assert_eq!(result.eject_mode(), Mode::Private);
    assert_eq!(
        (
            cs.num_constants_in_scope(),
            cs.num_public_in_scope(),
            cs.num_private_in_scope(),
            cs.num_constraints_in_scope()
        ),
        (16, 0, 301, 316)
    );
    // What the cost model predicts for these modes.
    let predicted = Integer::<8, false>::count::<8>(&(Mode::Private, Mode::Public));
    assert!(predicted.is_exact());
    assert_eq!(
        (
            predicted.num_constants(),
            predicted.num_public(),
            predicted.num_private(),
            predicted.num_constraints()
        ),
        (16, 0, 264, 280)
    );
}

/// The identities: anything to the power zero is one, also zero; anything
/// to the power one is itself.
#[test]
fn test_identities() {
    for mode_a in [Mode::Constant, Mode::Public, Mode::Private] {
        for mode_b in [Mode::Constant, Mode::Public, Mode::Private] {
            for x in [0u128, 1, 2, 3, 127, 128, 200, 255] {
                let mut cs = Circuit::new();
                let base = Integer::<8, false>::new(&mut cs, mode_a, x);
                let zero = Integer::<16, false>::new(&mut cs, mode_b, 0);
                let one = Integer::<16, false>::new(&mut cs, mode_b, 1);
                assert_eq!(base.pow_wrapped(&mut cs, &zero).eject_value(), 1);
                assert_eq!(base.pow_wrapped(&mut cs, &one).eject_value(), x);
            }
        }
    }
}

/// The square is the wrapped product with itself, the cube the wrapped
/// product of the square and the base.
#[test]
fn test_square_and_cube_are_products() {
    let mut values = Sequence(7);
    for mode in [Mode::Constant, Mode::Public, Mode::Private] {
        for _ in 0..20 {
            let x = values.next() & mask(64);
            let mut cs = Circuit::new();
            let base = Integer::<64, true>::new(&mut cs, mode, x);
            let two = Integer::<8, false>::new(&mut cs, Mode::Public, 2);
            let three = Integer::<8, false>::new(&mut cs, Mode::Public, 3);
            let square = base.mul_wrapped(&mut cs, &base);
            let cube = square.mul_wrapped(&mut cs, &base);
            assert_eq!(base.pow_wrapped(&mut cs, &two).eject_value(), square.eject_value());
            assert_eq!(base.pow_wrapped(&mut cs, &three).eject_value(), cube.eject_value());
            assert_eq!(square.eject_value(), (x as u64).wrapping_mul(x as u64) as u128);
        }
    }
}

/// The same inputs in a fresh session give the same value and the same
/// tally.
#[test]
fn test_synthesis_is_deterministic() {
    let mut values = Sequence(11);
    for mode_a in [Mode::Constant, Mode::Public, Mode::Private] {
        for mode_b in [Mode::Constant, Mode::Public, Mode::Private] {
            let x = values.next() & mask(32);
            let e = values.next() & mask(16);
            let mut outcomes = Vec::new();
            for _ in 0..3 {
                let mut cs = Circuit::new();
                let base = Integer::<32, false>::new(&mut cs, mode_a, x);
                let exponent = Integer::<16, false>::new(&mut cs, mode_b, e);
                let result = base.pow_wrapped(&mut cs, &exponent);
                outcomes.push((
                    result.eject_value(),
                    result.eject_mode(),
                    cs.num_constants(),
                    cs.num_public(),
                    cs.num_private(),
                    cs.num_constraints(),
                ));
            }
            assert_eq!(outcomes[0], outcomes[1]);
            assert_eq!(outcomes[1], outcomes[2]);
        }
    }
}

/// Signed integers are witnessed from, and ejected as, native values.
#[test]
fn test_signed_native_values() {
    for x in [-128i128, -127, -3, -1, 0, 1, 2, 100, 127] {
        for e in [0u128, 1, 2, 3, 7, 255] {
            let mut cs = Circuit::new();
            let base = Integer::<8, true>::new_signed(&mut cs, Mode::Private, x);
            let exponent = Integer::<8, false>::new(&mut cs, Mode::Private, e);
            assert_eq!(base.eject_signed(), x);
            let result = base.pow_wrapped(&mut cs, &exponent);
            assert_eq!(result.eject_signed(), (x as i8).wrapping_pow(e as u32) as i128);
        }
    }
}

/// The wires of an integer are its bits, least significant first, each in
/// the mode it was witnessed in.
#[test]
fn test_wires_are_little_endian() {
    let mut cs = Circuit::new();
    let x = U16::new(&mut cs, Mode::Public, 0b1000_0000_0000_0101);
    assert_eq!(x.width(), 16);
    assert!(x.bit(0).eject_value());
    assert!(!x.bit(1).eject_value());
    assert!(x.bit(2).eject_value());
    assert!(x.bit(15).eject_value());
    assert_eq!(x.bit(3).eject_mode(), Mode::Public);
    assert_eq!(cs.num_public(), 16);
    assert!(!x.is_constant());
    let one = Integer::<16, false>::one(&mut cs);
    let zero = Integer::<16, false>::zero(&mut cs);
    assert_eq!((one.eject_value(), zero.eject_value()), (1, 0));
    assert!(one.is_constant() && zero.is_constant());
    assert_eq!(cs.num_constants(), 32);
}

/// Selection copies under a constant condition and makes private wires
/// otherwise.
#[test]
fn test_ternary() {
    for condition_mode in [Mode::Constant, Mode::Public, Mode::Private] {
        for flag in [true, false] {
            let mut cs = Circuit::new();
            let condition = Boolean::new(&mut cs, condition_mode, flag);
            let a = Integer::<32, false>::new(&mut cs, Mode::Public, 0xdead_beef);
            let b = Integer::<32, false>::new(&mut cs, Mode::Constant, 0x1234_5678);
            cs.enter_scope("select");
            let selected = Integer::ternary(&mut cs, &condition, &a, &b);
            assert_eq!(selected.eject_value(), if flag { 0xdead_beef } else { 0x1234_5678 });
            let tally = (
                cs.num_constants_in_scope(),
                cs.num_public_in_scope(),
                cs.num_private_in_scope(),
                cs.num_constraints_in_scope(),
            );
            if condition_mode == Mode::Constant {
                assert_eq!(tally, (0, 0, 0, 0));
                assert_eq!(selected.eject_mode(), if flag { Mode::Public } else { Mode::Constant });
            } else {
                assert_eq!(tally, (0, 0, 32, 32));
                assert_eq!(selected.eject_mode(), Mode::Private);
            }
            let wire = Boolean::ternary(&mut cs, &condition, &a.bit(0), &b.bit(0));
            assert_eq!(wire.eject_value(), if flag { a.bit(0).eject_value() } else { b.bit(0).eject_value() });
        }
    }
}

/// One multiplication costs what its cost model says.
#[test]
fn test_mul_wrapped_count() {
    let modes = [Mode::Constant, Mode::Public, Mode::Private];
    for mode_a in modes {
        for mode_b in modes {
            let mut cs = Circuit::new();
            let a = Integer::<64, false>::new(&mut cs, mode_a, 0xffff_ffff_ffff_fffb);
            let b = Integer::<64, false>::new(&mut cs, mode_b, 0x1_0000_0001);
            cs.enter_scope("mul");
            let product = a.mul_wrapped(&mut cs, &b);
            assert_eq!(product.eject_value(), 0xffff_ffff_ffff_fffbu64.wrapping_mul(0x1_0000_0001) as u128);
            let count = Integer::<64, false>::mul_wrapped_count(&(mode_a, mode_b));
            assert!(count.is_exact());
            assert!(count.matches(
                cs.num_constants_in_scope(),
                cs.num_public_in_scope(),
                cs.num_private_in_scope(),
                cs.num_constraints_in_scope(),
            ));
            assert_eq!(product.eject_mode(), mode_a.combine(mode_b));
        }
    }
    let count = Integer::<64, false>::mul_wrapped_count(&(Mode::Private, Mode::Private));
    assert_eq!((count.num_constants(), count.num_public(), count.num_private(), count.num_constraints()), (0, 0, 100, 101));
    let count = Integer::<64, false>::mul_wrapped_count(&(Mode::Constant, Mode::Private));
    assert_eq!((count.num_constants(), count.num_public(), count.num_private(), count.num_constraints()), (0, 0, 97, 98));
    let count = Integer::<64, false>::mul_wrapped_count(&(Mode::Constant, Mode::Constant));
    assert_eq!((count.num_constants(), count.num_public(), count.num_private(), count.num_constraints()), (64, 0, 0, 0));
}

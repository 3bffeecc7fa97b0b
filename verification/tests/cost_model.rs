use snarkvm_core::boolean::Boolean;
use snarkvm_core::circuit::Circuit;
use snarkvm_core::circuit_type::CircuitType;
use snarkvm_core::count::Count;
use snarkvm_core::integer::Integer;
use snarkvm_core::mode::Mode;
use snarkvm_core::native::{fits_width, from_signed, to_signed, truncate, wrapping_mul, wrapping_pow};

const MODES: [Mode; 3] = [Mode::Constant, Mode::Public, Mode::Private];

fn numbers(count: &Count) -> (u64, u64, u64, u64) {
    (count.num_constants(), count.num_public(), count.num_private(), count.num_constraints())
}

/// The cost model, by its formula.
#[test]
fn test_count_formula() {
    // Both constant: the bits of the base, as constants.
    let count = Integer::<8, false>::count::<8>(&(Mode::Constant, Mode::Constant));
    assert!(count.is_exact());
    assert_eq!(numbers(&count), (8, 0, 0, 0));
    let count = Integer::<128, true>::count::<32>(&(Mode::Constant, Mode::Constant));
    assert!(count.is_exact());
    assert_eq!(numbers(&count), (128, 0, 0, 0));

    // One constant: twice the exponent's bits times a multiplication with
    // a constant, and the selection; an upper bound.
    for case in [(Mode::Constant, Mode::Public), (Mode::Constant, Mode::Private), (Mode::Public, Mode::Constant), (Mode::Private, Mode::Constant)] {
        let count = Integer::<8, false>::count::<8>(&case);
        assert!(!count.is_exact());
        assert_eq!(numbers(&count), (16, 0, 2 * 8 * 13 + 8, 2 * 8 * 14 + 8));
        let count = Integer::<64, true>::count::<16>(&case);
        assert!(!count.is_exact());
        assert_eq!(numbers(&count), (128, 0, 2 * 16 * 97 + 64, 2 * 16 * 98 + 64));
    }

    // Neither constant: the same formula with the full multiplication;
    // exact.
    for case in [(Mode::Public, Mode::Public), (Mode::Public, Mode::Private), (Mode::Private, Mode::Public), (Mode::Private, Mode::Private)] {
        let count = Integer::<8, false>::count::<8>(&case);
        assert!(count.is_exact());
        assert_eq!(numbers(&count), (16, 0, 2 * 8 * 16 + 8, 2 * 8 * 17 + 8));
        let count = Integer::<32, false>::count::<32>(&case);
        assert!(count.is_exact());
        assert_eq!(numbers(&count), (64, 0, 2 * 32 * 52 + 32, 2 * 32 * 53 + 32));
    }
}

fn agreement<const I: usize, const S: bool, const M: usize>(base: u128, exponent: u128, mode_a: Mode, mode_b: Mode) -> bool {
    let mut cs = Circuit::new();
    let a = Integer::<I, S>::new(&mut cs, mode_a, base);
    let b = Integer::<M, false>::new(&mut cs, mode_b, exponent);
    cs.enter_scope("pow");
    let _ = a.pow_wrapped(&mut cs, &b);
    let count = Integer::<I, S>::count::<M>(&(mode_a, mode_b));
    let agrees = count.matches(
        cs.num_constants_in_scope(),
        cs.num_public_in_scope(),
        cs.num_private_in_scope(),
        cs.num_constraints_in_scope(),
    );
    // Where the model is met: both constant; or a base that is not, a
    // constant exponent with its highest bit set, and an integer wide
    // enough.
    let top = exponent >> (M - 1) == 1;
    let met = (mode_a == Mode::Constant && mode_b == Mode::Constant)
        || (mode_a != Mode::Constant && mode_b == Mode::Constant && top && 12 * M <= 5 * I + 14);
    assert_eq!(agrees, met, "{}^{} bits, {:?} {:?}, exponent {}", I, M, mode_a, mode_b, exponent);
    agrees
}

/// Exponents of `M` bits of every length: all of up to eight bits, and
/// around every power of two above.
fn exponents<const M: usize>() -> Vec<u128> {
    let top = 1u128 << (M - 1);
    let mut exponents: Vec<u128> = (0..=255u128).collect();
    for shift in 8..M {
        exponents.push((1u128 << shift) - 1);
        exponents.push(1u128 << shift);
        exponents.push((1u128 << shift) + 1);
    }
    if M > 8 {
        exponents.push(2 * top - 1);
    }
    exponents
}

/// On how many inputs the model is met, and on how many it is expected to
/// be.
fn agreement_for<const I: usize, const M: usize>() -> (usize, usize) {
    let exponents = exponents::<M>();
    let set = exponents.iter().filter(|exponent| **exponent >> (M - 1) == 1).count();
    let mut met = 0;
    for mode_a in MODES {
        for mode_b in MODES {
            for exponent in &exponents {
                for base in [0u128, 1, 2, 200] {
                    if agreement::<I, false, M>(base, *exponent, mode_a, mode_b) {
                        met += 1;
                    }
                    if agreement::<I, true, M>(base, *exponent, mode_a, mode_b) {
                        met += 1;
                    }
                }
            }
        }
    }
    // Eight inputs for each exponent have two constant operands; sixteen
    // have a base that is not constant and a constant exponent.
    let expected = 8 * exponents.len() + if 12 * M <= 5 * I + 14 { 16 * set } else { 0 };
    (met, expected)
}

/// Where the cost model is met by synthesis, and where it is not: for every
/// width of the base, every pair of modes, and every exponent of eight bits.
#[test]
fn test_count_and_synthesis_with_exponents_of_8_bits() {
    let outcomes = [
        agreement_for::<8, 8>(),
        agreement_for::<16, 8>(),
        agreement_for::<32, 8>(),
        agreement_for::<64, 8>(),
        agreement_for::<128, 8>(),
    ];
    for (met, expected) in outcomes {
        assert_eq!(met, expected);
    }
    // Narrow integers meet the model with constants only, wide ones also
    // with a constant exponent whose highest bit is set.
    assert_eq!(outcomes[0].0, 8 * 256);
    assert_eq!(outcomes[1].0, 8 * 256);
    assert_eq!(outcomes[2].0, 8 * 256 + 16 * 128);
    assert_eq!(outcomes[4].0, 8 * 256 + 16 * 128);
}

/// The same for exponents of sixteen bits, of every length.
#[test]
fn test_count_and_synthesis_with_exponents_of_16_bits() {
    let outcomes = [
        agreement_for::<8, 16>(),
        agreement_for::<16, 16>(),
        agreement_for::<32, 16>(),
        agreement_for::<64, 16>(),
        agreement_for::<128, 16>(),
    ];
    for (met, expected) in outcomes {
        assert_eq!(met, expected);
    }
    assert_eq!(outcomes[0].0, outcomes[2].0);
    assert!(outcomes[3].0 > outcomes[2].0);
}

/// The same for exponents of thirty-two bits, of every length.
#[test]
fn test_count_and_synthesis_with_exponents_of_32_bits() {
    let outcomes = [
        agreement_for::<8, 32>(),
        agreement_for::<16, 32>(),
        agreement_for::<32, 32>(),
        agreement_for::<64, 32>(),
        agreement_for::<128, 32>(),
    ];
    for (met, expected) in outcomes {
        assert_eq!(met, expected);
    }
    assert_eq!(outcomes[0].0, outcomes[3].0);
    assert!(outcomes[4].0 > outcomes[3].0);
}

/// Every pair of eight-bit constants: no wires, no constraints, and the
/// count of the model.
#[test]
fn test_count_and_synthesis_of_constants_exhaustive() {
    let count = Integer::<8, false>::count::<8>(&(Mode::Constant, Mode::Constant));
    for base in 0..=255u128 {
        for exponent in 0..=255u128 {
            let mut cs = Circuit::new();
            let a = Integer::<8, false>::new(&mut cs, Mode::Constant, base);
            let b = Integer::<8, false>::new(&mut cs, Mode::Constant, exponent);
            cs.enter_scope("pow");
            let result = a.pow_wrapped(&mut cs, &b);
            assert_eq!(result.eject_value(), (base as u8).wrapping_pow(exponent as u32) as u128);
            assert_eq!(result.eject_mode(), Mode::Constant);
            assert_eq!(cs.num_public_in_scope(), 0);
            assert_eq!(cs.num_private_in_scope(), 0);
            assert_eq!(cs.num_constraints_in_scope(), 0);
            assert!(count.matches(cs.num_constants_in_scope(), 0, 0, 0));
        }
    }
}

/// The inference of the mode of the result, rule by rule.
#[test]
fn test_output_mode() {
    let mut cs = Circuit::new();
    let zero = Integer::<16, false>::new(&mut cs, Mode::Constant, 0);
    let five = Integer::<16, false>::new(&mut cs, Mode::Constant, 5);
    let public = Integer::<16, false>::new(&mut cs, Mode::Public, 0);
    let private = Integer::<16, false>::new(&mut cs, Mode::Private, 0);

    // A constant to a constant power is a constant.
    assert_eq!(Integer::<8, false>::output_mode(&(Mode::Constant, CircuitType::from_circuit(&zero))), Mode::Constant);
    assert_eq!(Integer::<8, false>::output_mode(&(Mode::Constant, CircuitType::from_circuit(&five))), Mode::Constant);
    // A constant to a power that is not constant is private.
    assert_eq!(Integer::<8, false>::output_mode(&(Mode::Constant, CircuitType::from_circuit(&public))), Mode::Private);
    assert_eq!(Integer::<8, false>::output_mode(&(Mode::Constant, CircuitType::<Integer<16, false>>::Private)), Mode::Private);
    // Anything to the constant power zero is the constant one.
    assert_eq!(Integer::<8, false>::output_mode(&(Mode::Public, CircuitType::from_circuit(&zero))), Mode::Constant);
    assert_eq!(Integer::<8, false>::output_mode(&(Mode::Private, CircuitType::from_circuit(&zero))), Mode::Constant);
    // To another constant power it is private.
    assert_eq!(Integer::<8, false>::output_mode(&(Mode::Public, CircuitType::from_circuit(&five))), Mode::Private);
    assert_eq!(Integer::<8, false>::output_mode(&(Mode::Private, CircuitType::from_circuit(&five))), Mode::Private);
    // Neither constant: private.
    assert_eq!(Integer::<8, false>::output_mode(&(Mode::Public, CircuitType::from_circuit(&public))), Mode::Private);
    assert_eq!(Integer::<8, false>::output_mode(&(Mode::Private, CircuitType::from_circuit(&private))), Mode::Private);
    assert_eq!(Integer::<8, false>::output_mode(&(Mode::Public, CircuitType::<Integer<16, false>>::Public)), Mode::Private);

    // What is known of an integer before synthesis.
    assert!(CircuitType::from_circuit(&five).is_constant());
    assert_eq!(CircuitType::from_circuit(&public).mode(), Mode::Public);
    assert_eq!(CircuitType::from_circuit(&private).mode(), Mode::Private);
    match CircuitType::from_circuit(&five) {
        CircuitType::Constant(value) => assert_eq!(value.eject_value(), 5),
        _ => panic!("a constant is known by its value"),
    }
}

/// The inferred mode is the mode of the synthesized result, for every pair
/// of modes and for exponents that are zero and that are not.
#[test]
fn test_output_mode_and_synthesis() {
    for mode_a in MODES {
        for mode_b in MODES {
            for exponent in [0u128, 1, 2, 128, 255] {
                for base in [0u128, 1, 7, 65535] {
                    let mut cs = Circuit::new();
                    let a = Integer::<16, true>::new(&mut cs, mode_a, base);
                    let b = Integer::<8, false>::new(&mut cs, mode_b, exponent);
                    let inferred = Integer::<16, true>::output_mode(&(mode_a, CircuitType::from_circuit(&b)));
                    let result = a.pow_wrapped(&mut cs, &b);
                    assert_eq!(result.eject_mode(), inferred);
                    let expected = if mode_a == Mode::Constant && mode_b == Mode::Constant {
                        Mode::Constant
                    } else if mode_b == Mode::Constant && exponent == 0 {
                        Mode::Constant
                    } else {
                        Mode::Private
                    };
                    assert_eq!(inferred, expected);
                }
            }
        }
    }
}

/// Counts add up, scale, and are met exactly or from above.
#[test]
fn test_count_arithmetic() {
    let exact = Count::is(1, 2, 3, 4);
    let bound = Count::less_than(10, 20, 30, 40);
    assert!(exact.is_exact());
    assert!(!bound.is_exact());
    assert!(exact.matches(1, 2, 3, 4));
    assert!(!exact.matches(1, 2, 3, 3));
    assert!(!exact.matches(0, 2, 3, 4));
    assert!(bound.matches(10, 20, 30, 40));
    assert!(bound.matches(0, 0, 0, 0));
    assert!(!bound.matches(11, 0, 0, 0));
    assert!(!bound.matches(0, 0, 0, 41));

    let sum = exact.plus(Count::is(10, 10, 10, 10));
    assert!(sum.is_exact());
    assert_eq!(numbers(&sum), (11, 12, 13, 14));
    let sum = exact.plus(bound);
    assert!(!sum.is_exact());
    assert_eq!(numbers(&sum), (11, 22, 33, 44));
    let scaled = exact.times(7);
    assert!(scaled.is_exact());
    assert_eq!(numbers(&scaled), (7, 14, 21, 28));
    let scaled = bound.times(0);
    assert!(!scaled.is_exact());
    assert_eq!(numbers(&scaled), (0, 0, 0, 0));
    let loosened = exact.bounded();
    assert!(!loosened.is_exact());
    assert!(loosened.matches(1, 2, 3, 4));
    assert!(loosened.matches(0, 1, 2, 3));
    assert_eq!(Count::is(1, 2, 3, 4), exact);
    assert_ne!(loosened, exact);
}

/// Modes join by privacy and combine to constant or private.
#[test]
fn test_modes() {
    assert_eq!(Mode::Constant.join(Mode::Constant), Mode::Constant);
    assert_eq!(Mode::Constant.join(Mode::Public), Mode::Public);
    assert_eq!(Mode::Public.join(Mode::Constant), Mode::Public);
    assert_eq!(Mode::Public.join(Mode::Public), Mode::Public);
    assert_eq!(Mode::Public.join(Mode::Private), Mode::Private);
    assert_eq!(Mode::Private.join(Mode::Constant), Mode::Private);
    assert_eq!(Mode::Private.join(Mode::Private), Mode::Private);
    for a in MODES {
        for b in MODES {
            assert_eq!(a.join(b), b.join(a));
            let combined = a.combine(b);
            if a == Mode::Constant && b == Mode::Constant {
                assert_eq!(combined, Mode::Constant);
            } else {
                assert_eq!(combined, Mode::Private);
            }
        }
    }
    assert!(Mode::Constant.is_constant() && !Mode::Public.is_constant() && !Mode::Private.is_constant());
    assert!(Mode::Public.is_public() && !Mode::Constant.is_public());
    assert!(Mode::Private.is_private() && !Mode::Public.is_private());
}

/// A session counts what is emitted, scope by scope, and forgets it on
/// reset.
#[test]
fn test_session_scopes() {
    let mut cs = Circuit::new();
    assert_eq!(cs.scope_name(), None);
    assert!(cs.exit_scope().is_none());
    let _ = Boolean::new(&mut cs, Mode::Constant, true);
    let _ = Boolean::new(&mut cs, Mode::Public, true);
    cs.enter_scope("outer");
    assert_eq!(cs.scope_name(), Some("outer".to_string()));
    let _ = Boolean::new(&mut cs, Mode::Private, false);
    cs.charge(1, 2, 3, 4);
    cs.enter_scope("inner");
    let _ = Boolean::new(&mut cs, Mode::Public, false);
    assert_eq!(cs.scope_name(), Some("inner".to_string()));
    assert_eq!(
        (cs.num_constants_in_scope(), cs.num_public_in_scope(), cs.num_private_in_scope(), cs.num_constraints_in_scope()),
        (0, 1, 0, 0)
    );
    let inner = cs.exit_scope().unwrap();
    assert_eq!(numbers(&inner), (0, 1, 0, 0));
    assert_eq!(
        (cs.num_constants_in_scope(), cs.num_public_in_scope(), cs.num_private_in_scope(), cs.num_constraints_in_scope()),
        (1, 3, 4, 4)
    );
    let outer = cs.exit_scope().unwrap();
    assert!(outer.is_exact());
    assert_eq!(numbers(&outer), (1, 3, 4, 4));
    assert_eq!((cs.num_constants(), cs.num_public(), cs.num_private(), cs.num_constraints()), (2, 4, 4, 4));
    assert_eq!(
        (cs.num_constants_in_scope(), cs.num_public_in_scope(), cs.num_private_in_scope(), cs.num_constraints_in_scope()),
        (2, 4, 4, 4)
    );
    cs.enter_scope("left open");
    cs.reset();
    assert_eq!((cs.num_constants(), cs.num_public(), cs.num_private(), cs.num_constraints()), (0, 0, 0, 0));
    assert_eq!(cs.scope_name(), None);
}

/// Native arithmetic on patterns.
#[test]
fn test_native_arithmetic() {
    assert_eq!(wrapping_pow(200, 3, 8), 0);
    assert_eq!(wrapping_pow(3, 5, 8), 243);
    assert_eq!(wrapping_pow(3, 6, 8), 729 % 256);
    assert_eq!(wrapping_pow(0, 0, 8), 1);
    assert_eq!(wrapping_pow(u128::MAX, 2, 128), 1);
    assert_eq!(wrapping_pow(2, 127, 128), 1u128 << 127);
    assert_eq!(wrapping_pow(2, 128, 128), 0);
    assert_eq!(wrapping_pow(7, u32::MAX, 64), 7u64.wrapping_pow(u32::MAX) as u128);
    assert_eq!(wrapping_mul(0xffff, 0xffff, 16), 1);
    assert_eq!(wrapping_mul(u128::MAX, u128::MAX, 128), 1);
    assert_eq!(wrapping_mul(1 << 63, 2, 64), 0);
    assert_eq!(truncate(0x1_23, 8), 0x23);
    assert_eq!(truncate(u128::MAX, 128), u128::MAX);
    assert!(fits_width(255, 8) && !fits_width(256, 8) && fits_width(u128::MAX, 128));
    assert_eq!(to_signed(0xff, 8), -1);
    assert_eq!(to_signed(0x80, 8), -128);
    assert_eq!(to_signed(0x7f, 8), 127);
    assert_eq!(to_signed(u128::MAX, 128), -1);
    assert_eq!(to_signed(1 << 127, 128), i128::MIN);
    assert_eq!(from_signed(-1, 16), 0xffff);
    assert_eq!(from_signed(i128::MIN, 128), 1 << 127);
    assert_eq!(from_signed(-32768, 16), 0x8000);
    assert_eq!(from_signed(5, 32), 5);
}

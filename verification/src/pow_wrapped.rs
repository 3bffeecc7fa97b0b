//! Wrapped exponentiation: a fixed ladder of squarings and multiplications
//! over the bits of the exponent, with its cost model and the inference of
//! its result's mode.

use crate::bits::{
    all_constant,
    high_part,
    le_value,
    lemma_high_part_step,
    lemma_le_value_bound,
    lemma_le_value_zero,
    lemma_mode_of_uniform,
    lemma_wires_of,
    mode_of,
    wires_of,
};
use crate::boolean::{Boolean, Wire};
use crate::circuit::Circuit;
use crate::circuit_type::CircuitType;
use crate::count::{kind_admits, Cost, Count, CountKind};
use crate::integer::Integer;
use crate::mode::Mode;
use crate::native::{
    is_integer_width,
    is_magnitude_width,
    lemma_ladder_step,
    lemma_width_moduli,
    lemma_wrapping_pow_is_native,
    wrap,
    wrapping_pow,
    wrapping_pow_spec,
};
use vstd::arithmetic::power2::{lemma_pow2_pos, pow2};
use vstd::arithmetic::power::{lemma_pow0, pow};
use vstd::prelude::*;

verus! {

/// The mode of a power, from the modes of base and exponent and the value of
/// the exponent.
///
/// A constant to a constant power is a constant. Anything to the constant
/// power zero is the constant one. Every other power is private.
pub open spec fn pow_output_mode(base: Mode, exponent: Mode, exponent_value: nat) -> Mode {
    if base == Mode::Constant && exponent == Mode::Constant {
        Mode::Constant
    } else if exponent == Mode::Constant && exponent_value == 0 {
        Mode::Constant
    } else {
        Mode::Private
    }
}

/// Whether the running result of the ladder is still a constant after the
/// step for the exponent bit `control`: the bit is a constant, the result
/// was one, and the step did not multiply by a base that is not.
pub open spec fn step_constant(base_constant: bool, control: Wire, result_constant: bool) -> bool {
    control.mode == Mode::Constant && result_constant && (base_constant || !control.value)
}

/// Whether the result of the ladder is a constant once the lowest
/// `remaining` bits of the exponent have been worked through, starting from
/// a running result that is constant or not.
pub open spec fn ladder_constant(
    base_constant: bool,
    exponent: Seq<Wire>,
    remaining: nat,
    result_constant: bool,
) -> bool
    decreases remaining,
{
    if remaining == 0 {
        result_constant
    } else {
        ladder_constant(
            base_constant,
            exponent,
            (remaining - 1) as nat,
            step_constant(base_constant, exponent[remaining - 1], result_constant),
        )
    }
}

/// How many of the lowest `remaining` bits of the exponent are not
/// constants: the selections that a ladder over them emits.
pub open spec fn selections(exponent: Seq<Wire>, remaining: nat) -> nat
    decreases remaining,
{
    if remaining == 0 {
        0
    } else {
        selections(exponent, (remaining - 1) as nat) + if exponent[remaining - 1].mode
            == Mode::Constant {
            0nat
        } else {
            1nat
        }
    }
}

/// A constant exponent has no selection to emit.
pub proof fn lemma_no_selections(exponent: Seq<Wire>, remaining: nat)
    requires
        all_constant(exponent),
        remaining <= exponent.len(),
    ensures
        selections(exponent, remaining) == 0,
    decreases remaining,
{
    if remaining > 0 {
        lemma_no_selections(exponent, (remaining - 1) as nat);
        assert(exponent[remaining - 1].mode == Mode::Constant);
    }
}

/// The mode of wires that are all constant or all private.
pub open spec fn constant_or_private(constant: bool) -> Mode {
    if constant {
        Mode::Constant
    } else {
        Mode::Private
    }
}

/// The ladder ends on a constant exactly when it started on one and every
/// remaining exponent bit is a constant that does not bring in a base that
/// is not.
pub proof fn lemma_ladder_constant(
    base_constant: bool,
    exponent: Seq<Wire>,
    remaining: nat,
    result_constant: bool,
)
    requires
        remaining <= exponent.len(),
    ensures
        ladder_constant(base_constant, exponent, remaining, result_constant) <==> result_constant
            && forall|i: int|
            0 <= i < remaining ==> (#[trigger] exponent[i]).mode == Mode::Constant && (base_constant
                || !exponent[i].value),
    decreases remaining,
{
    if remaining > 0 {
        lemma_ladder_constant(
            base_constant,
            exponent,
            (remaining - 1) as nat,
            step_constant(base_constant, exponent[remaining - 1], result_constant),
        );
    }
}

impl<const BITS: usize, const SIGNED: bool> Integer<BITS, SIGNED> {
    /// What one step of the ladder adds to a circuit: a squaring of the
    /// running result, a multiplication of the square by the base, and the
    /// selection between the two by the exponent bit.
    pub open spec fn step_cost(base_constant: bool, control: Wire, result_constant: bool) -> Cost {
        Self::mul_wrapped_cost(result_constant, result_constant).plus(
            Self::mul_wrapped_cost(result_constant, base_constant),
        ).plus(Self::ternary_cost(control.mode))
    }

    /// What the ladder adds to a circuit over the lowest `remaining` bits of
    /// the exponent, most significant first.
    pub open spec fn ladder_cost(
        base_constant: bool,
        exponent: Seq<Wire>,
        remaining: nat,
        result_constant: bool,
    ) -> Cost
        decreases remaining,
    {
        if remaining == 0 {
            Cost::zero()
        } else {
            let control = exponent[remaining - 1];
            Self::step_cost(base_constant, control, result_constant).plus(
                Self::ladder_cost(
                    base_constant,
                    exponent,
                    (remaining - 1) as nat,
                    step_constant(base_constant, control, result_constant),
                ),
            )
        }
    }

    /// What `pow_wrapped` adds to a circuit: one constant when base and
    /// exponent are constants; otherwise the constant one that the ladder
    /// starts from, and the ladder.
    pub open spec fn pow_wrapped_cost(base: Seq<Wire>, exponent: Seq<Wire>) -> Cost {
        if all_constant(base) && all_constant(exponent) {
            Self::witness_cost(Mode::Constant)
        } else {
            Self::witness_cost(Mode::Constant).plus(
                Self::ladder_cost(all_constant(base), exponent, exponent.len(), true),
            )
        }
    }

    /// What the cost model predicts for a power of operands of the given
    /// modes, with an exponent of `magnitude_bits` bits.
    pub open spec fn count_cost(magnitude_bits: nat, base: Mode, exponent: Mode) -> Cost {
        let bits = BITS as nat;
        if base == Mode::Constant && exponent == Mode::Constant {
            Cost::new(bits, 0, 0, 0)
        } else {
            Self::mul_wrapped_cost(base == Mode::Constant, exponent == Mode::Constant).times(
                2 * magnitude_bits,
            ).plus(Cost::new(2 * bits, 0, bits, bits))
        }
    }

    /// Whether the cost model predicts exactly or from above: exactly when
    /// both operands are constants and when neither is, from above when one
    /// of them is.
    pub open spec fn count_kind(base: Mode, exponent: Mode) -> CountKind {
        if (base == Mode::Constant) == (exponent == Mode::Constant) {
            CountKind::Exact
        } else {
            CountKind::UpperBound
        }
    }

    /// Where the cost model is met by synthesis: where base and exponent are
    /// constants; and where the base is not, the exponent is a constant with
    /// its highest bit set, and the integer is wide enough for the bound of
    /// the model to cover the ladder, which is when `12 * M <= 5 * BITS + 14`
    /// for an exponent of `M` bits.
    pub open spec fn count_is_met(base: Seq<Wire>, exponent: Seq<Wire>) -> bool {
        ||| all_constant(base) && all_constant(exponent)
        ||| {
            &&& !all_constant(base)
            &&& all_constant(exponent)
            &&& exponent.last().value
            &&& 12 * exponent.len() <= 5 * BITS + 14
        }
    }

    /// `self` to the power `other`, truncated to `BITS` bits.
    ///
    /// Two constants are folded natively. Otherwise the exponent's bits are
    /// worked through from the most significant: the running result is
    /// squared, the square is multiplied by the base, and the exponent bit
    /// selects between the product and the square. The steps are the same
    /// whatever the exponent holds, so the circuit does not show it.
    pub fn pow_wrapped<const M: usize>(&self, cs: &mut Circuit, other: &Integer<M, false>) -> (r:
        Self)
        requires
            is_magnitude_width(M as nat),
            old(cs).wf(),
            old(cs).fits(Self::pow_wrapped_cost(self@, other@)),
        ensures
            r@ == wires_of(
                wrapping_pow_spec(self.value(), other.value(), BITS as nat),
                BITS as nat,
                pow_output_mode(self.mode(), other.mode(), other.value()),
            ),
            r@.len() == BITS,
            r.value() == wrapping_pow_spec(self.value(), other.value(), BITS as nat),
            r.native() == wrap(pow(self.native(), other.value()), BITS as nat, SIGNED),
            r.mode() == pow_output_mode(self.mode(), other.mode(), other.value()),
            final(cs).extends(*old(cs), Self::pow_wrapped_cost(self@, other@)),
    {
        let width: usize = self.width();
        let length: usize = other.width();
        let base_constant: bool = self.is_constant();
        let ghost m: int = pow2(BITS as nat) as int;
        let ghost base: int = self.value() as int;
        proof {
            lemma_pow2_pos(BITS as nat);
            lemma_width_moduli();
            lemma_wrapping_pow_is_native(self.value(), other.value(), BITS as nat, SIGNED);
        }
        if base_constant && other.is_constant() {
            let exponent: u128 = other.eject_value();
            let power: u128 = wrapping_pow(self.eject_value(), exponent as u32, width);
            proof {
                lemma_wires_of(power as nat, BITS as nat, Mode::Constant);
                vstd::arithmetic::div_mod::lemma_small_mod(power as nat, pow2(BITS as nat));
                lemma_mode_of_uniform(
                    wires_of(power as nat, BITS as nat, Mode::Constant),
                    Mode::Constant,
                );
            }
            cs.charge(width as u64, 0, 0, 0);
            return Self::from_pattern(Mode::Constant, power);
        }
        let ghost total: Cost = Self::ladder_cost(base_constant, other@, M as nat, true);
        let ghost start: Circuit = *cs;
        let mut result: Self = Self::one(cs);
        let ghost mut spent: Cost = Cost::zero();
        let ghost mut constant: bool = true;
        let mut k: usize = length;
        proof {
            lemma_high_part_step(other@, 0);
            lemma_pow0(base);
            vstd::arithmetic::div_mod::lemma_small_mod(1, m as nat);
            assert(high_part(other@, M as int) =~= Seq::<Wire>::empty());
        }
        while k > 0
            invariant
                k <= M,
                is_integer_width(BITS as nat),
                other@.len() == M,
                self@.len() == BITS,
                base_constant == all_constant(self@),
                base == self.value(),
                m == pow2(BITS as nat),
                m > 0,
                start.wf(),
                start.fits(Self::witness_cost(Mode::Constant).plus(total)),
                total == Self::ladder_cost(base_constant, other@, M as nat, true),
                cs.extends(start, Self::witness_cost(Mode::Constant).plus(spent)),
                spent.plus(Self::ladder_cost(base_constant, other@, k as nat, constant)) == total,
                ladder_constant(base_constant, other@, k as nat, constant) == ladder_constant(
                    base_constant,
                    other@,
                    M as nat,
                    true,
                ),
                result@ == wires_of(
                    (pow(base, le_value(high_part(other@, k as int))) % m) as nat,
                    BITS as nat,
                    constant_or_private(constant),
                ),
            decreases k,
        {
            k = k - 1;
            let control: Boolean = other.bit(k);
            let ghost p: nat = le_value(high_part(other@, k + 1));
            let ghost before: nat = (pow(base, p) % m) as nat;
            let ghost mode: Mode = constant_or_private(constant);
            proof {
                lemma_wires_of(before, BITS as nat, mode);
                vstd::arithmetic::div_mod::lemma_small_mod(before, m as nat);
                lemma_mode_of_uniform(result@, mode);
                lemma_high_part_step(other@, k as int);
                lemma_ladder_step(base, p, m);
                assert(all_constant(result@) == constant);
            }
            let square: Self = result.mul_wrapped(cs, &result);
            let product: Self = square.mul_wrapped(cs, self);
            proof {
                assert(all_constant(square@) == constant) by {
                    lemma_mode_of_uniform(square@, square.mode());
                }
                assert(square.value() == pow(base, 2 * p) % m);
                assert(product.value() == pow(base, 2 * p + 1) % m);
            }
            result = Self::ternary(cs, &control, &product, &square);
            proof {
                let step = Self::step_cost(base_constant, control@, constant);
                let next = step_constant(base_constant, control@, constant);
                let after: nat = (pow(base, le_value(high_part(other@, k as int))) % m) as nat;
                assert(result.value() == after);
                assert(result@ =~= wires_of(after, BITS as nat, constant_or_private(next))) by {
                    lemma_wires_of(after, BITS as nat, constant_or_private(next));
                    assert forall|i: int| 0 <= i < BITS implies result@[i] == wires_of(
                        after,
                        BITS as nat,
                        constant_or_private(next),
                    )[i] by {
                    }
                }
                spent = spent.plus(step);
                constant = next;
            }
        }
        proof {
            lemma_ladder_constant(base_constant, other@, M as nat, true);
            lemma_le_value_zero(other@);
            lemma_le_value_bound(other@);
            let mode = constant_or_private(constant);
            let power = wrapping_pow_spec(self.value(), other.value(), BITS as nat);
            lemma_wires_of(power, BITS as nat, mode);
            vstd::arithmetic::div_mod::lemma_small_mod(power, m as nat);
            lemma_mode_of_uniform(wires_of(power, BITS as nat, mode), mode);
            assert(mode == pow_output_mode(self.mode(), other.mode(), other.value()));
        }
        result
    }

    /// The cost model of `pow_wrapped`: what a power of operands of the
    /// given modes is predicted to add to a circuit, from the modes alone.
    ///
    /// A power of two constants is one constant. Every other power is counted
    /// as two multiplications for each bit of the exponent, at the cost of a
    /// multiplication of operands of these modes, and one selection.
    pub fn count<const M: usize>(case: &(Mode, Mode)) -> (r: Count)
        requires
            is_integer_width(BITS as nat),
            is_magnitude_width(M as nat),
        ensures
            r.kind() == Self::count_kind(case.0, case.1),
            r.cost() == Self::count_cost(M as nat, case.0, case.1),
    {
        let bits: u64 = BITS as u64;
        let magnitude_bits: u64 = M as u64;
        proof {
            let each = Self::mul_wrapped_cost(case.0 == Mode::Constant, case.1 == Mode::Constant);
            let factor: nat = 2 * (M as nat);
            assert(each.constants * factor <= 128 * 64 && each.public * factor == 0 && each.private
                * factor <= 200 * 64 && each.constraints * factor <= 200 * 64) by (nonlinear_arith)
                requires
                    each.constants <= 128,
                    each.public == 0,
                    each.private <= 200,
                    each.constraints <= 200,
                    factor <= 64,
            ;
        }
        match (case.0, case.1) {
            (Mode::Constant, Mode::Constant) => Count::is(bits, 0, 0, 0),
            (Mode::Constant, _) | (_, Mode::Constant) => {
                let mul_count: Count = Self::mul_wrapped_count(case);
                mul_count.times(2 * magnitude_bits).plus(Count::is(2 * bits, 0, bits, bits)).bounded()
            },
            (_, _) => {
                let mul_count: Count = Self::mul_wrapped_count(case);
                mul_count.times(2 * magnitude_bits).plus(Count::is(2 * bits, 0, bits, bits))
            },
        }
    }

    /// The mode that `pow_wrapped` gives its result, from the mode of the
    /// base and what is known of the exponent before synthesis.
    pub fn output_mode<const M: usize>(case: &(Mode, CircuitType<Integer<M, false>>)) -> (r: Mode)
        ensures
            r == pow_output_mode(
                case.0,
                case.1.mode_spec(),
                match case.1 {
                    CircuitType::Constant(constant) => constant.value(),
                    _ => 0,
                },
            ),
    {
        match (case.0, &case.1) {
            (Mode::Constant, CircuitType::Constant(_)) => Mode::Constant,
            (Mode::Constant, _) => Mode::Private,
            (_, CircuitType::Constant(constant)) => {
                if constant.eject_value() == 0 {
                    Mode::Constant
                } else {
                    Mode::Private
                }
            },
            (_, _) => Mode::Private,
        }
    }

    /// Every step of the ladder stays within two multiplications of
    /// operands that are not constant, one selection and two new constants.
    pub proof fn lemma_ladder_cost_bound(
        base_constant: bool,
        exponent: Seq<Wire>,
        remaining: nat,
        result_constant: bool,
    )
        requires
            is_integer_width(BITS as nat),
            remaining <= exponent.len(),
        ensures
            Self::ladder_cost(base_constant, exponent, remaining, result_constant).within(
                Cost::new(remaining * 256, 0, remaining * 520, remaining * 522),
            ),
        decreases remaining,
    {
        if remaining > 0 {
            Self::lemma_ladder_cost_bound(
                base_constant,
                exponent,
                (remaining - 1) as nat,
                step_constant(base_constant, exponent[remaining - 1], result_constant),
            );
        }
    }

    /// What `pow_wrapped` adds to a circuit is bounded whatever the operands
    /// are, so that a session with this much room takes any power.
    pub proof fn lemma_pow_wrapped_cost_bound(base: Seq<Wire>, exponent: Seq<Wire>)
        requires
            is_integer_width(BITS as nat),
            is_magnitude_width(exponent.len()),
        ensures
            Self::pow_wrapped_cost(base, exponent).within(Cost::new(8320, 0, 16640, 16704)),
    {
        Self::lemma_ladder_cost_bound(all_constant(base), exponent, exponent.len(), true);
    }

    /// Below the first step, a ladder whose running result is no longer a
    /// constant, for a base that is not one, adds no constants; it adds two
    /// multiplications of operands that are not constant for each bit, and a
    /// selection for each bit that is not a constant.
    proof fn lemma_ladder_cost_symbolic(exponent: Seq<Wire>, remaining: nat)
        requires
            is_integer_width(BITS as nat),
            remaining <= exponent.len(),
        ensures
            Self::ladder_cost(false, exponent, remaining, false) == Cost::new(
                0,
                0,
                (remaining * (3 * BITS + 8) + selections(exponent, remaining) * BITS) as nat,
                (remaining * (3 * BITS + 10) + selections(exponent, remaining) * BITS) as nat,
            ),
            selections(exponent, remaining) <= remaining,
        decreases remaining,
    {
        let bits = BITS as int;
        if remaining > 0 {
            let control = exponent[remaining - 1];
            let before = selections(exponent, (remaining - 1) as nat) as int;
            let selected: int = if control.mode == Mode::Constant {
                0
            } else {
                1
            };
            assert(!step_constant(false, control, false));
            assert(Self::step_cost(false, control, false) == Cost::new(
                0,
                0,
                (3 * bits + 8 + selected * bits) as nat,
                (3 * bits + 10 + selected * bits) as nat,
            ));
            Self::lemma_ladder_cost_symbolic(exponent, (remaining - 1) as nat);
            assert(remaining * (3 * bits + 8) + (before + selected) * bits == (remaining - 1) * (3
                * bits + 8) + before * bits + (3 * bits + 8 + selected * bits)) by (nonlinear_arith);
            assert(remaining * (3 * bits + 10) + (before + selected) * bits == (remaining - 1) * (3
                * bits + 10) + before * bits + (3 * bits + 10 + selected * bits))
                by (nonlinear_arith);
        } else {
            assert(remaining * (3 * bits + 8) + selections(exponent, remaining) * bits == 0
                && remaining * (3 * bits + 10) + selections(exponent, remaining) * bits == 0)
                by (nonlinear_arith)
                requires
                    remaining == 0,
                    selections(exponent, remaining) == 0,
            ;
        }
    }

    /// The cost model agrees with synthesis where `count_is_met` holds: the
    /// tally that `pow_wrapped` adds to a circuit is the count that `count`
    /// returns for the modes of the operands where the count is exact, and
    /// within it where the count is an upper bound.
    pub proof fn lemma_count_admits_synthesis(base: Seq<Wire>, exponent: Seq<Wire>)
        requires
            is_integer_width(BITS as nat),
            is_magnitude_width(exponent.len()),
            base.len() == BITS,
            Self::count_is_met(base, exponent),
        ensures
            kind_admits(
                Self::count_kind(mode_of(base), mode_of(exponent)),
                Self::count_cost(exponent.len(), mode_of(base), mode_of(exponent)),
                Self::pow_wrapped_cost(base, exponent),
            ),
    {
        let bits = BITS as int;
        let length = exponent.len() as int;
        if !all_constant(base) {
            let top = exponent[length - 1];
            assert(top.mode == Mode::Constant);
            assert(!step_constant(false, top, true));
            Self::lemma_ladder_cost_symbolic(exponent, (length - 1) as nat);
            lemma_no_selections(exponent, (length - 1) as nat);
            assert(selections(exponent, (length - 1) as nat) * bits == 0) by (nonlinear_arith)
                requires
                    selections(exponent, (length - 1) as nat) == 0,
            ;
            let each = Self::mul_wrapped_cost(false, true);
            assert(each.times((2 * length) as nat) == Cost::new(
                0,
                0,
                ((bits + bits / 2 + 1) * (2 * length)) as nat,
                ((bits + bits / 2 + 2) * (2 * length)) as nat,
            )) by (nonlinear_arith)
                requires
                    each == Cost::new(
                        0,
                        0,
                        (bits + bits / 2 + 1) as nat,
                        (bits + bits / 2 + 2) as nat,
                    ),
                    length > 0,
                    bits > 0,
            ;
            assert((length - 1) * (3 * bits + 8) + (bits + bits / 2 + 1) <= (bits + bits / 2 + 1)
                * (2 * length) + bits && (length - 1) * (3 * bits + 10) + (bits + bits / 2 + 2) <= (
            bits + bits / 2 + 2) * (2 * length) + bits) by (nonlinear_arith)
                requires
                    12 * length <= 5 * bits + 14,
                    bits % 2 == 0,
                    length > 0,
                    bits > 0,
            ;
        }
    }

    /// The cost model disagrees with synthesis wherever `count_is_met` does
    /// not hold.
    ///
    /// Where the running result is still a constant when the second step
    /// starts, synthesis makes more constants than the model counts. Where
    /// it is not, the ladder has a multiplication by a constant in its
    /// first step only, and selections as the exponent has bits that are not
    /// constant: the private wires cannot come to the number of the model,
    /// nor stay within it where the integer is narrow.
    pub proof fn lemma_count_refuses_synthesis(base: Seq<Wire>, exponent: Seq<Wire>)
        requires
            is_integer_width(BITS as nat),
            is_magnitude_width(exponent.len()),
            base.len() == BITS,
            !Self::count_is_met(base, exponent),
        ensures
            !kind_admits(
                Self::count_kind(mode_of(base), mode_of(exponent)),
                Self::count_cost(exponent.len(), mode_of(base), mode_of(exponent)),
                Self::pow_wrapped_cost(base, exponent),
            ),
    {
        let bits = BITS as int;
        let length = exponent.len() as int;
        let base_constant = all_constant(base);
        let top = exponent[length - 1];
        let next = step_constant(base_constant, top, true);
        let actual = Self::pow_wrapped_cost(base, exponent);
        let predicted = Self::count_cost(exponent.len(), mode_of(base), mode_of(exponent));
        let second = exponent[length - 2];
        let rest = Self::ladder_cost(
            base_constant,
            exponent,
            (length - 2) as nat,
            step_constant(base_constant, second, next),
        );
        // The ladder, two steps unfolded.
        assert(Self::ladder_cost(base_constant, exponent, (length - 1) as nat, next)
            == Self::step_cost(base_constant, second, next).plus(rest));
        assert(Self::ladder_cost(base_constant, exponent, length as nat, true) == Self::step_cost(
            base_constant,
            top,
            true,
        ).plus(
            Self::step_cost(base_constant, second, next).plus(rest),
        ));
        let each = Self::mul_wrapped_cost(
            mode_of(base) == Mode::Constant,
            mode_of(exponent) == Mode::Constant,
        );
        assert(each.times((2 * length) as nat).constants == 0) by (nonlinear_arith)
            requires
                each.constants == 0,
        ;
        assert(predicted.constants == 2 * bits);
        if base_constant {
            // Two constant products in the first step.
            assert(actual.constants >= 3 * bits);
        } else if next {
            // A constant square in the first step and in the second.
            assert(actual.constants >= 3 * bits);
        } else {
            Self::lemma_ladder_cost_symbolic(exponent, (length - 1) as nat);
            let selected: int = if top.mode == Mode::Constant {
                0
            } else {
                1
            };
            let chosen = selections(exponent, (length - 1) as nat) + selected;
            assert(actual.private == (bits + bits / 2 + 1) + selected * bits + ((length - 1) * (3
                * bits + 8) + selections(exponent, (length - 1) as nat) * bits));
            assert(2 * actual.private == 2 * length * (3 * bits + 8) + (2 * chosen - 3) * bits
                - 14) by (nonlinear_arith)
                requires
                    actual.private == (bits + bits / 2 + 1) + selected * bits + ((length - 1) * (3
                        * bits + 8) + selections(exponent, (length - 1) as nat) * bits),
                    chosen == selections(exponent, (length - 1) as nat) + selected,
                    bits % 2 == 0,
            ;
            if all_constant(exponent) {
                assert(chosen == 0) by {
                    lemma_no_selections(exponent, (length - 1) as nat);
                }
                assert(2 * predicted.private == 2 * length * (3 * bits + 2) + 2 * bits)
                    by (nonlinear_arith)
                    requires
                        predicted.private == each.times((2 * length) as nat).private + bits,
                        each.times((2 * length) as nat).private == each.private * (2 * length),
                        each.private == bits + bits / 2 + 1,
                        bits % 2 == 0,
                ;
                assert(actual.private > predicted.private) by (nonlinear_arith)
                    requires
                        2 * actual.private == 2 * length * (3 * bits + 8) + (2 * chosen - 3)
                            * bits - 14,
                        2 * predicted.private == 2 * length * (3 * bits + 2) + 2 * bits,
                        chosen == 0,
                        12 * length > 5 * bits + 14,
                ;
            } else {
                assert(2 * predicted.private == 2 * length * (3 * bits + 8) + 2 * bits)
                    by (nonlinear_arith)
                    requires
                        predicted.private == each.times((2 * length) as nat).private + bits,
                        each.times((2 * length) as nat).private == each.private * (2 * length),
                        each.private == bits + bits / 2 + 4,
                        bits % 2 == 0,
                ;
                assert(actual.private != predicted.private) by (nonlinear_arith)
                    requires
                        2 * actual.private == 2 * length * (3 * bits + 8) + (2 * chosen - 3)
                            * bits - 14,
                        2 * predicted.private == 2 * length * (3 * bits + 8) + 2 * bits,
                        bits == 8 || bits == 16 || bits == 32 || bits == 64 || bits == 128,
                ;
            }
        }
    }

    /// The mode that is inferred before synthesis is the mode of the
    /// synthesized result: what `output_mode` returns for the mode of a base
    /// and what is known of an exponent is the mode that `pow_wrapped` gives
    /// the power of that base and that exponent.
    pub proof fn lemma_output_mode_agrees_with_synthesis<const M: usize>(
        base: Mode,
        known: CircuitType<Integer<M, false>>,
        exponent: Integer<M, false>,
    )
        requires
            known.describes(&exponent),
        ensures
            pow_output_mode(
                base,
                known.mode_spec(),
                match known {
                    CircuitType::Constant(constant) => constant.value(),
                    _ => 0,
                },
            ) == pow_output_mode(base, exponent.mode(), exponent.value()),
    {
    }

    /// The ladder over an exponent without a constant bit adds the same to a
    /// circuit whatever the bits hold.
    proof fn lemma_ladder_cost_hides_bits(
        base_constant: bool,
        first: Seq<Wire>,
        second: Seq<Wire>,
        remaining: nat,
        result_constant: bool,
    )
        requires
            remaining <= first.len(),
            first.len() == second.len(),
            forall|i: int|
                0 <= i < first.len() ==> (#[trigger] first[i]).mode == second[i].mode
                    && first[i].mode != Mode::Constant,
        ensures
            Self::ladder_cost(base_constant, first, remaining, result_constant)
                == Self::ladder_cost(base_constant, second, remaining, result_constant),
        decreases remaining,
    {
        if remaining > 0 {
            assert(first[remaining - 1].mode == second[remaining - 1].mode);
            assert(first[remaining - 1].mode != Mode::Constant);
            Self::lemma_ladder_cost_hides_bits(
                base_constant,
                first,
                second,
                (remaining - 1) as nat,
                false,
            );
        }
    }

    /// The shape of the circuit does not show what an exponent without a
    /// constant bit holds: two powers whose operands have the same modes,
    /// wire by wire, add the same to a circuit, whatever the values of base
    /// and exponent are.
    pub proof fn lemma_cost_hides_exponent(
        first_base: Seq<Wire>,
        first_exponent: Seq<Wire>,
        second_base: Seq<Wire>,
        second_exponent: Seq<Wire>,
    )
        requires
            first_exponent.len() == second_exponent.len(),
            first_exponent.len() > 0,
            all_constant(first_base) == all_constant(second_base),
            forall|i: int|
                0 <= i < first_exponent.len() ==> (#[trigger] first_exponent[i]).mode
                    == second_exponent[i].mode && first_exponent[i].mode != Mode::Constant,
        ensures
            Self::pow_wrapped_cost(first_base, first_exponent) == Self::pow_wrapped_cost(
                second_base,
                second_exponent,
            ),
    {
        assert(first_exponent[0].mode != Mode::Constant);
        assert(second_exponent[0].mode == first_exponent[0].mode);
        Self::lemma_ladder_cost_hides_bits(
            all_constant(first_base),
            first_exponent,
            second_exponent,
            first_exponent.len(),
            true,
        );
    }

    /// Synthesis is deterministic: what `pow_wrapped` returns and what it
    /// adds to a circuit are functions of the wires of its operands. Two runs
    /// on the same operands, each in a session with nothing emitted before,
    /// end with the same result and the same tally.
    pub proof fn lemma_pow_wrapped_is_deterministic(
        base: Seq<Wire>,
        exponent: Seq<Wire>,
        first_before: Circuit,
        first_after: Circuit,
        first_result: Seq<Wire>,
        second_before: Circuit,
        second_after: Circuit,
        second_result: Seq<Wire>,
    )
        requires
            first_before.tally() == Cost::zero(),
            second_before.tally() == Cost::zero(),
            first_after.extends(first_before, Self::pow_wrapped_cost(base, exponent)),
            second_after.extends(second_before, Self::pow_wrapped_cost(base, exponent)),
            first_result == wires_of(
                wrapping_pow_spec(le_value(base), le_value(exponent), BITS as nat),
                BITS as nat,
                pow_output_mode(mode_of(base), mode_of(exponent), le_value(exponent)),
            ),
            second_result == wires_of(
                wrapping_pow_spec(le_value(base), le_value(exponent), BITS as nat),
                BITS as nat,
                pow_output_mode(mode_of(base), mode_of(exponent), le_value(exponent)),
            ),
        ensures
            first_result == second_result,
            first_after.tally() == second_after.tally(),
            first_after.tally() == Self::pow_wrapped_cost(base, exponent),
    {
    }
}

} // verus!

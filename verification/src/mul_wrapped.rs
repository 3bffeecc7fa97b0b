//! Wrapped multiplication: the product of two integers, truncated to their
//! width.

use crate::bits::{all_constant, lemma_mode_of_uniform, lemma_wires_of, wires_of};
use crate::circuit::Circuit;
use crate::count::{Cost, Count, CountKind};
use crate::integer::Integer;
use crate::mode::Mode;
use crate::native::{
    is_integer_width,
    lemma_wrapping_mul_is_native,
    wrap,
    wrapping_mul,
    wrapping_mul_spec,
};
use vstd::arithmetic::power2::pow2;
use vstd::prelude::*;

verus! {

impl<const BITS: usize, const SIGNED: bool> Integer<BITS, SIGNED> {
    /// What one wrapped multiplication adds to a circuit.
    ///
    /// Two constants are multiplied natively and the product is a new
    /// constant. Otherwise the operands are split into halves, the partial
    /// products are summed and the sum is decomposed into `BITS + BITS / 2 + 1`
    /// private bits; the partial products cost three more wires where
    /// neither operand is constant.
    pub open spec fn mul_wrapped_cost(first_constant: bool, second_constant: bool) -> Cost {
        let bits = BITS as nat;
        if first_constant && second_constant {
            Cost::new(bits, 0, 0, 0)
        } else if first_constant || second_constant {
            Cost::new(0, 0, bits + bits / 2 + 1, bits + bits / 2 + 2)
        } else {
            Cost::new(0, 0, bits + bits / 2 + 4, bits + bits / 2 + 5)
        }
    }

    /// The product of `self` and `other`, truncated to `BITS` bits: constant
    /// when both operands are, private otherwise.
    pub fn mul_wrapped(&self, cs: &mut Circuit, other: &Self) -> (r: Self)
        requires
            old(cs).wf(),
            old(cs).fits(Self::mul_wrapped_cost(all_constant(self@), all_constant(other@))),
        ensures
            r@ == wires_of(
                wrapping_mul_spec(self.value(), other.value(), BITS as nat),
                BITS as nat,
                self.mode().combine_spec(other.mode()),
            ),
            r@.len() == BITS,
            r.value() == wrapping_mul_spec(self.value(), other.value(), BITS as nat),
            r.native() == wrap(self.native() * other.native(), BITS as nat, SIGNED),
            r.mode() == self.mode().combine_spec(other.mode()),
            final(cs).extends(
                *old(cs),
                Self::mul_wrapped_cost(all_constant(self@), all_constant(other@)),
            ),
    {
        let width: usize = self.width();
        let first_constant: bool = self.is_constant();
        let second_constant: bool = other.is_constant();
        let product: u128 = wrapping_mul(self.eject_value(), other.eject_value(), width);
        let mode: Mode = if first_constant && second_constant {
            Mode::Constant
        } else {
            Mode::Private
        };
        proof {
            lemma_wires_of(product as nat, BITS as nat, mode);
            vstd::arithmetic::div_mod::lemma_small_mod(product as nat, pow2(BITS as nat));
            lemma_mode_of_uniform(wires_of(product as nat, BITS as nat, mode), mode);
            lemma_wrapping_mul_is_native(self.value(), other.value(), BITS as nat, SIGNED);
        }
        let bits: u64 = width as u64;
        if first_constant && second_constant {
            cs.charge(bits, 0, 0, 0);
        } else if first_constant || second_constant {
            cs.charge(0, 0, bits + bits / 2 + 1, bits + bits / 2 + 2);
        } else {
            cs.charge(0, 0, bits + bits / 2 + 4, bits + bits / 2 + 5);
        }
        Self::from_pattern(mode, product)
    }

    /// The cost model of `mul_wrapped`: what one multiplication of operands
    /// of the given modes adds to a circuit, exactly.
    pub fn mul_wrapped_count(case: &(Mode, Mode)) -> (r: Count)
        requires
            is_integer_width(BITS as nat),
        ensures
            r.kind() == CountKind::Exact,
            r.cost() == Self::mul_wrapped_cost(
                case.0 == Mode::Constant,
                case.1 == Mode::Constant,
            ),
    {
        let bits: u64 = BITS as u64;
        match (case.0, case.1) {
            (Mode::Constant, Mode::Constant) => Count::is(bits, 0, 0, 0),
            (Mode::Constant, _) | (_, Mode::Constant) => Count::is(
                0,
                0,
                bits + bits / 2 + 1,
                bits + bits / 2 + 2,
            ),
            (_, _) => Count::is(0, 0, bits + bits / 2 + 4, bits + bits / 2 + 5),
        }
    }
}

} // verus!

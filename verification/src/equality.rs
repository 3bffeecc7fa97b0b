//! The equality gadgets: whether two wires, or two integers, hold the same
//! value.

use crate::bits::all_constant;
use crate::boolean::{Boolean, Wire};
use crate::circuit::Circuit;
use crate::count::Cost;
use crate::integer::Integer;
use crate::mode::Mode;
use vstd::prelude::*;

verus! {

/// What comparing two wires adds to a circuit: one constant where both are
/// constants, one private wire and one constraint otherwise.
pub open spec fn wire_equality_cost(first_constant: bool, second_constant: bool) -> Cost {
    if first_constant && second_constant {
        Cost::new(1, 0, 0, 0)
    } else {
        Cost::new(0, 0, 1, 1)
    }
}

impl Boolean {
    /// Whether two wires hold the same bit: a constant where both are
    /// constants, a private wire otherwise.
    pub fn is_equal(&self, cs: &mut Circuit, other: &Boolean) -> (r: Boolean)
        requires
            old(cs).wf(),
            old(cs).fits(
                wire_equality_cost(self@.mode == Mode::Constant, other@.mode == Mode::Constant),
            ),
        ensures
            r@ == (Wire {
                mode: self@.mode.combine_spec(other@.mode),
                value: self@.value == other@.value,
            }),
            final(cs).extends(
                *old(cs),
                wire_equality_cost(self@.mode == Mode::Constant, other@.mode == Mode::Constant),
            ),
    {
        let mode: Mode = self.eject_mode().combine(other.eject_mode());
        let value: bool = self.eject_value() == other.eject_value();
        if mode.is_constant() {
            cs.charge(1, 0, 0, 0);
        } else {
            cs.charge(0, 0, 1, 1);
        }
        Boolean::from_wire(Wire { mode, value })
    }

    /// Whether two wires hold different bits.
    pub fn is_not_equal(&self, cs: &mut Circuit, other: &Boolean) -> (r: Boolean)
        requires
            old(cs).wf(),
            old(cs).fits(
                wire_equality_cost(self@.mode == Mode::Constant, other@.mode == Mode::Constant),
            ),
        ensures
            r@ == (Wire {
                mode: self@.mode.combine_spec(other@.mode),
                value: self@.value != other@.value,
            }),
            final(cs).extends(
                *old(cs),
                wire_equality_cost(self@.mode == Mode::Constant, other@.mode == Mode::Constant),
            ),
    {
        let equal: Boolean = self.is_equal(cs, other);
        Boolean::from_wire(Wire { mode: equal.eject_mode(), value: !equal.eject_value() })
    }
}

impl<const BITS: usize, const SIGNED: bool> Integer<BITS, SIGNED> {
    /// What comparing two integers adds to a circuit: one constant where
    /// both are constants; otherwise one comparison for each pair of bits
    /// and one conjunction less than there are bits, each a private wire and
    /// a constraint.
    pub open spec fn equality_cost(first_constant: bool, second_constant: bool) -> Cost {
        let bits = BITS as nat;
        if first_constant && second_constant {
            Cost::new(1, 0, 0, 0)
        } else {
            Cost::new(0, 0, (2 * bits - 1) as nat, (2 * bits - 1) as nat)
        }
    }

    /// Whether two integers hold the same value: a constant where both are
    /// constants, a private wire otherwise.
    pub fn is_equal(&self, cs: &mut Circuit, other: &Self) -> (r: Boolean)
        requires
            old(cs).wf(),
            old(cs).fits(Self::equality_cost(all_constant(self@), all_constant(other@))),
        ensures
            r@ == (Wire {
                mode: self.mode().combine_spec(other.mode()),
                value: self.value() == other.value(),
            }),
            final(cs).extends(
                *old(cs),
                Self::equality_cost(all_constant(self@), all_constant(other@)),
            ),
    {
        let width: usize = self.width();
        let mode: Mode = self.eject_mode().combine(other.eject_mode());
        let value: bool = self.eject_value() == other.eject_value();
        if mode.is_constant() {
            cs.charge(1, 0, 0, 0);
        } else {
            let gates: u64 = 2 * (width as u64) - 1;
            cs.charge(0, 0, gates, gates);
        }
        Boolean::from_wire(Wire { mode, value })
    }

    /// Whether two integers hold different values.
    pub fn is_not_equal(&self, cs: &mut Circuit, other: &Self) -> (r: Boolean)
        requires
            old(cs).wf(),
            old(cs).fits(Self::equality_cost(all_constant(self@), all_constant(other@))),
        ensures
            r@ == (Wire {
                mode: self.mode().combine_spec(other.mode()),
                value: self.value() != other.value(),
            }),
            final(cs).extends(
                *old(cs),
                Self::equality_cost(all_constant(self@), all_constant(other@)),
            ),
    {
        let equal: Boolean = self.is_equal(cs, other);
        Boolean::from_wire(Wire { mode: equal.eject_mode(), value: !equal.eject_value() })
    }
}

} // verus!

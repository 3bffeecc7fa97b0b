//! The boolean wire: one bit with a mode, and the selection gadget on it.

use crate::circuit::Circuit;
use crate::count::Cost;
use crate::mode::Mode;
use vstd::prelude::*;

verus! {

/// What a wire carries: one bit and the mode in which it is visible.
#[derive(Clone, Copy, Debug, PartialEq, Eq, Structural)]
pub struct Wire {
    pub mode: Mode,
    pub value: bool,
}

/// What witnessing one wire of the given mode adds to a circuit.
pub open spec fn wire_cost(mode: Mode) -> Cost {
    match mode {
        Mode::Constant => Cost::new(1, 0, 0, 0),
        Mode::Public => Cost::new(0, 1, 0, 0),
        Mode::Private => Cost::new(0, 0, 1, 0),
    }
}

/// The wire that selecting between `first` and `second` by `condition`
/// gives: a copy of the selected wire when the condition is constant, a
/// private wire with the selected bit otherwise.
pub open spec fn select_wire(condition: Wire, first: Wire, second: Wire) -> Wire {
    let chosen = if condition.value {
        first
    } else {
        second
    };
    if condition.mode == Mode::Constant {
        chosen
    } else {
        Wire { mode: Mode::Private, value: chosen.value }
    }
}

/// What selecting one wire adds to a circuit: nothing when the condition is
/// constant, one private wire and one constraint otherwise.
pub open spec fn select_cost(condition: Mode) -> Cost {
    if condition == Mode::Constant {
        Cost::zero()
    } else {
        Cost::new(0, 0, 1, 1)
    }
}

/// A boolean wire of a circuit.
#[derive(Clone, Copy, Debug, PartialEq, Eq, Structural)]
pub struct Boolean {
    wire: Wire,
}

impl View for Boolean {
    type V = Wire;

    closed spec fn view(&self) -> Wire {
        self.wire
    }
}

impl Boolean {
    /// A wire that is already accounted for.
    pub(crate) fn from_wire(wire: Wire) -> (r: Boolean)
        ensures
            r@ == wire,
    {
        Boolean { wire }
    }

    /// Witnesses `value` as a new wire of the given mode.
    pub fn new(cs: &mut Circuit, mode: Mode, value: bool) -> (r: Boolean)
        requires
            old(cs).wf(),
            old(cs).fits(wire_cost(mode)),
        ensures
            r@ == (Wire { mode, value }),
            final(cs).extends(*old(cs), wire_cost(mode)),
    {
        match mode {
            Mode::Constant => cs.charge(1, 0, 0, 0),
            Mode::Public => cs.charge(0, 1, 0, 0),
            Mode::Private => cs.charge(0, 0, 1, 0),
        }
        Boolean { wire: Wire { mode, value } }
    }

    /// The mode of the wire.
    pub fn eject_mode(&self) -> (r: Mode)
        ensures
            r == self@.mode,
    {
        self.wire.mode
    }

    /// The bit on the wire.
    pub fn eject_value(&self) -> (r: bool)
        ensures
            r == self@.value,
    {
        self.wire.value
    }

    /// Whether the wire is a constant.
    pub fn is_constant(&self) -> (r: bool)
        ensures
            r == (self@.mode == Mode::Constant),
    {
        self.wire.mode.is_constant()
    }

    /// Selects `first` where the condition holds and `second` where it does
    /// not, without branching on a condition that is not constant.
    pub fn ternary(cs: &mut Circuit, condition: &Boolean, first: &Boolean, second: &Boolean) -> (r:
        Boolean)
        requires
            old(cs).wf(),
            old(cs).fits(select_cost(condition@.mode)),
        ensures
            r@ == select_wire(condition@, first@, second@),
            final(cs).extends(*old(cs), select_cost(condition@.mode)),
    {
        let chosen: Wire = if condition.wire.value {
            first.wire
        } else {
            second.wire
        };
        if condition.wire.mode.is_constant() {
            Boolean { wire: chosen }
        } else {
            cs.charge(0, 0, 1, 1);
            Boolean { wire: Wire { mode: Mode::Private, value: chosen.value } }
        }
    }
}

} // verus!

//! What is known of a circuit value before synthesis: the value itself where
//! it is a constant, only its mode where it is not.

use crate::integer::Integer;
use crate::mode::Mode;
use vstd::prelude::*;

verus! {

/// A value as mode inference sees it: a constant with the value it has, or a
/// public or private value that is unknown until synthesis.
pub enum CircuitType<T> {
    Constant(T),
    Public,
    Private,
}

impl<T> CircuitType<T> {
    /// The mode of the value.
    pub open spec fn mode_spec(&self) -> Mode {
        match self {
            CircuitType::Constant(_) => Mode::Constant,
            CircuitType::Public => Mode::Public,
            CircuitType::Private => Mode::Private,
        }
    }

    /// The mode of the value.
    pub fn mode(&self) -> (r: Mode)
        ensures
            r == self.mode_spec(),
    {
        match self {
            CircuitType::Constant(_) => Mode::Constant,
            CircuitType::Public => Mode::Public,
            CircuitType::Private => Mode::Private,
        }
    }

    /// Whether the value is a constant.
    pub fn is_constant(&self) -> (r: bool)
        ensures
            r == (self.mode_spec() == Mode::Constant),
    {
        matches!(self, CircuitType::Constant(_))
    }
}

impl<const BITS: usize, const SIGNED: bool> CircuitType<Integer<BITS, SIGNED>> {
    /// Whether this is what is known of `integer` before synthesis: its mode,
    /// and its wires where it is a constant.
    pub open spec fn describes(&self, integer: &Integer<BITS, SIGNED>) -> bool {
        &&& self.mode_spec() == integer.mode()
        &&& self matches CircuitType::Constant(constant) ==> constant@ == integer@
    }

    /// What is known of `integer` before synthesis.
    pub fn from_circuit(integer: &Integer<BITS, SIGNED>) -> (r: Self)
        ensures
            r.describes(integer),
    {
        match integer.eject_mode() {
            Mode::Constant => CircuitType::Constant(integer.duplicate()),
            Mode::Public => CircuitType::Public,
            Mode::Private => CircuitType::Private,
        }
    }
}

} // verus!

//! Visibility modes of circuit values and the two ways of combining them.

use vstd::prelude::*;

verus! {

/// How a value is visible in a circuit.
///
/// `Constant` values are fixed when the circuit is defined, `Public` values
/// are revealed to verifiers, `Private` values are known to the prover only.
#[derive(Clone, Copy, Debug, PartialEq, Eq, Hash, Structural)]
pub enum Mode {
    Constant,
    Public,
    Private,
}

impl Mode {
    /// Position in the privacy order `Constant < Public < Private`.
    pub open spec fn rank(self) -> nat {
        match self {
            Mode::Constant => 0,
            Mode::Public => 1,
            Mode::Private => 2,
        }
    }

    /// The more private of two modes: the mode of a value made of parts that
    /// have these modes.
    pub open spec fn join_spec(self, other: Mode) -> Mode {
        if self.rank() >= other.rank() {
            self
        } else {
            other
        }
    }

    /// The mode of the result of an operation on two operands: `Constant`
    /// when both operands are, `Private` otherwise.
    pub open spec fn combine_spec(self, other: Mode) -> Mode {
        if self == Mode::Constant && other == Mode::Constant {
            Mode::Constant
        } else {
            Mode::Private
        }
    }

    /// Whether this is `Constant`.
    pub fn is_constant(&self) -> (r: bool)
        ensures
            r == (*self == Mode::Constant),
    {
        matches!(self, Mode::Constant)
    }

    /// Whether this is `Public`.
    pub fn is_public(&self) -> (r: bool)
        ensures
            r == (*self == Mode::Public),
    {
        matches!(self, Mode::Public)
    }

    /// Whether this is `Private`.
    pub fn is_private(&self) -> (r: bool)
        ensures
            r == (*self == Mode::Private),
    {
        matches!(self, Mode::Private)
    }

    /// The more private of `self` and `other`.
    pub fn join(self, other: Mode) -> (r: Mode)
        ensures
            r == self.join_spec(other),
    {
        match (self, other) {
            (Mode::Private, _) => Mode::Private,
            (_, Mode::Private) => Mode::Private,
            (Mode::Public, _) => Mode::Public,
            (_, Mode::Public) => Mode::Public,
            (Mode::Constant, Mode::Constant) => Mode::Constant,
        }
    }

    /// The mode that an operation on operands of modes `self` and `other`
    /// gives its result.
    pub fn combine(self, other: Mode) -> (r: Mode)
        ensures
            r == self.combine_spec(other),
    {
        match (self, other) {
            (Mode::Constant, Mode::Constant) => Mode::Constant,
            _ => Mode::Private,
        }
    }
}

/// Joining is commutative, associative and idempotent, and `Constant` is its
/// neutral element: the mode of a collection of wires does not depend on the
/// order in which the wires are visited.
pub proof fn lemma_join_is_semilattice(a: Mode, b: Mode, c: Mode)
    ensures
        a.join_spec(b) == b.join_spec(a),
        a.join_spec(b).join_spec(c) == a.join_spec(b.join_spec(c)),
        a.join_spec(a) == a,
        Mode::Constant.join_spec(a) == a,
        a.join_spec(b) == Mode::Constant <==> a == Mode::Constant && b == Mode::Constant,
{
}

} // verus!

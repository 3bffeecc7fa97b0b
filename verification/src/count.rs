//! Resource tuples: what a gadget adds to a circuit, as a ghost quantity
//! (`Cost`) and as the value that a cost model returns (`Count`).

use vstd::prelude::*;

verus! {

/// The resources that a piece of synthesis adds to a circuit: constants,
/// public wires, private wires and constraints.
pub struct Cost {
    pub constants: nat,
    pub public: nat,
    pub private: nat,
    pub constraints: nat,
}

impl Cost {
    /// Nothing.
    pub open spec fn zero() -> Cost {
        Cost { constants: 0, public: 0, private: 0, constraints: 0 }
    }

    /// The tuple of the given numbers.
    pub open spec fn new(constants: nat, public: nat, private: nat, constraints: nat) -> Cost {
        Cost { constants, public, private, constraints }
    }

    /// The sum, component by component.
    pub open spec fn plus(self, other: Cost) -> Cost {
        Cost {
            constants: self.constants + other.constants,
            public: self.public + other.public,
            private: self.private + other.private,
            constraints: self.constraints + other.constraints,
        }
    }

    /// The multiple, component by component.
    pub open spec fn times(self, factor: nat) -> Cost {
        Cost {
            constants: self.constants * factor,
            public: self.public * factor,
            private: self.private * factor,
            constraints: self.constraints * factor,
        }
    }

    /// Componentwise `<=`.
    pub open spec fn within(self, bound: Cost) -> bool {
        &&& self.constants <= bound.constants
        &&& self.public <= bound.public
        &&& self.private <= bound.private
        &&& self.constraints <= bound.constraints
    }
}

/// Whether a `Count` states the resources exactly or bounds them from above.
#[derive(Clone, Copy, Debug, PartialEq, Eq, Structural)]
pub enum CountKind {
    Exact,
    UpperBound,
}

/// Whether a tally meets a prediction of the given kind: equal to it where
/// the prediction is exact, within it where it is an upper bound.
pub open spec fn kind_admits(kind: CountKind, predicted: Cost, tally: Cost) -> bool {
    match kind {
        CountKind::Exact => tally == predicted,
        CountKind::UpperBound => tally.within(predicted),
    }
}

/// What a cost model predicts for an operation: a resource tuple, read
/// either as the exact tally or as an upper bound on it.
#[derive(Clone, Copy, Debug, PartialEq, Eq, Structural)]
pub struct Count {
    kind: CountKind,
    num_constants: u64,
    num_public: u64,
    num_private: u64,
    num_constraints: u64,
}

impl Count {
    /// Whether the count is exact or an upper bound.
    pub closed spec fn kind(self) -> CountKind {
        self.kind
    }

    /// The tuple of numbers, whatever the kind.
    pub closed spec fn cost(self) -> Cost {
        Cost {
            constants: self.num_constants as nat,
            public: self.num_public as nat,
            private: self.num_private as nat,
            constraints: self.num_constraints as nat,
        }
    }

    /// Whether a tally meets the prediction: equal to it where the count is
    /// exact, within it where the count is an upper bound.
    pub open spec fn admits(self, tally: Cost) -> bool {
        kind_admits(self.kind(), self.cost(), tally)
    }

    /// The kind of a sum: exact only when both summands are.
    pub open spec fn sum_kind(a: CountKind, b: CountKind) -> CountKind {
        if a == CountKind::Exact && b == CountKind::Exact {
            CountKind::Exact
        } else {
            CountKind::UpperBound
        }
    }

    /// An exact count.
    pub fn is(num_constants: u64, num_public: u64, num_private: u64, num_constraints: u64) -> (r:
        Count)
        ensures
            r.kind() == CountKind::Exact,
            r.cost() == Cost::new(
                num_constants as nat,
                num_public as nat,
                num_private as nat,
                num_constraints as nat,
            ),
    {
        Count { kind: CountKind::Exact, num_constants, num_public, num_private, num_constraints }
    }

    /// A count that bounds each resource from above.
    pub fn less_than(
        num_constants: u64,
        num_public: u64,
        num_private: u64,
        num_constraints: u64,
    ) -> (r: Count)
        ensures
            r.kind() == CountKind::UpperBound,
            r.cost() == Cost::new(
                num_constants as nat,
                num_public as nat,
                num_private as nat,
                num_constraints as nat,
            ),
    {
        Count {
            kind: CountKind::UpperBound,
            num_constants,
            num_public,
            num_private,
            num_constraints,
        }
    }

    /// Whether the count is exact.
    pub fn is_exact(&self) -> (r: bool)
        ensures
            r == (self.kind() == CountKind::Exact),
    {
        matches!(self.kind, CountKind::Exact)
    }

    /// The number of constants.
    pub fn num_constants(&self) -> (r: u64)
        ensures
            r == self.cost().constants,
    {
        self.num_constants
    }

    /// The number of public wires.
    pub fn num_public(&self) -> (r: u64)
        ensures
            r == self.cost().public,
    {
        self.num_public
    }

    /// The number of private wires.
    pub fn num_private(&self) -> (r: u64)
        ensures
            r == self.cost().private,
    {
        self.num_private
    }

    /// The number of constraints.
    pub fn num_constraints(&self) -> (r: u64)
        ensures
            r == self.cost().constraints,
    {
        self.num_constraints
    }

    /// Whether the given tally meets this count.
    pub fn matches(
        &self,
        num_constants: u64,
        num_public: u64,
        num_private: u64,
        num_constraints: u64,
    ) -> (r: bool)
        ensures
            r == self.admits(
                Cost::new(
                    num_constants as nat,
                    num_public as nat,
                    num_private as nat,
                    num_constraints as nat,
                ),
            ),
    {
        match self.kind {
            CountKind::Exact => {
                num_constants == self.num_constants && num_public == self.num_public
                    && num_private == self.num_private && num_constraints == self.num_constraints
            },
            CountKind::UpperBound => {
                num_constants <= self.num_constants && num_public <= self.num_public
                    && num_private <= self.num_private && num_constraints <= self.num_constraints
            },
        }
    }

    /// The same numbers, read as an upper bound.
    pub fn bounded(self) -> (r: Count)
        ensures
            r.kind() == CountKind::UpperBound,
            r.cost() == self.cost(),
    {
        Count {
            kind: CountKind::UpperBound,
            num_constants: self.num_constants,
            num_public: self.num_public,
            num_private: self.num_private,
            num_constraints: self.num_constraints,
        }
    }

    /// The count of two pieces of synthesis one after the other.
    pub fn plus(self, other: Count) -> (r: Count)
        requires
            self.cost().plus(other.cost()).within(
                Cost::new(u64::MAX as nat, u64::MAX as nat, u64::MAX as nat, u64::MAX as nat),
            ),
        ensures
            r.kind() == Count::sum_kind(self.kind(), other.kind()),
            r.cost() == self.cost().plus(other.cost()),
    {
        let kind = match (self.kind, other.kind) {
            (CountKind::Exact, CountKind::Exact) => CountKind::Exact,
            _ => CountKind::UpperBound,
        };
        Count {
            kind,
            num_constants: self.num_constants + other.num_constants,
            num_public: self.num_public + other.num_public,
            num_private: self.num_private + other.num_private,
            num_constraints: self.num_constraints + other.num_constraints,
        }
    }

    /// The count of `factor` repetitions of the same piece of synthesis.
    pub fn times(self, factor: u64) -> (r: Count)
        requires
            self.cost().times(factor as nat).within(
                Cost::new(u64::MAX as nat, u64::MAX as nat, u64::MAX as nat, u64::MAX as nat),
            ),
        ensures
            r.kind() == self.kind(),
            r.cost() == self.cost().times(factor as nat),
    {
        Count {
            kind: self.kind,
            num_constants: self.num_constants * factor,
            num_public: self.num_public * factor,
            num_private: self.num_private * factor,
            num_constraints: self.num_constraints * factor,
        }
    }
}

} // verus!

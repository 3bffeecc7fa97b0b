//! The synthesis session: the tally of what gadgets have emitted so far, and
//! the scopes that measure a part of it.

use crate::count::{Cost, Count};
use vstd::prelude::*;

verus! {

/// The totals at the moment a scope was opened.
struct Scope {
    name: String,
    constants: u64,
    public: u64,
    private: u64,
    constraints: u64,
}

/// One synthesis session.
///
/// Gadgets take the session by `&mut` and add what they emit to it. A scope
/// remembers the totals at its opening, so that what was emitted since then
/// can be read off. `reset` starts the next, independent session.
pub struct Circuit {
    constants: u64,
    public: u64,
    private: u64,
    constraints: u64,
    scopes: Vec<Scope>,
}

impl Circuit {
    /// No open scope starts beyond the current totals.
    pub closed spec fn wf(&self) -> bool {
        forall|i: int|
            #![trigger self.scopes@[i]]
            0 <= i < self.scopes@.len() ==> {
                &&& self.scopes@[i].constants <= self.constants
                &&& self.scopes@[i].public <= self.public
                &&& self.scopes@[i].private <= self.private
                &&& self.scopes@[i].constraints <= self.constraints
            }
    }

    /// Everything emitted in this session.
    pub closed spec fn tally(&self) -> Cost {
        Cost {
            constants: self.constants as nat,
            public: self.public as nat,
            private: self.private as nat,
            constraints: self.constraints as nat,
        }
    }

    /// The number of open scopes.
    pub closed spec fn depth(&self) -> nat {
        self.scopes@.len()
    }

    /// The names of the open scopes, outermost first.
    pub closed spec fn scope_names(&self) -> Seq<Seq<char>> {
        Seq::new(self.scopes@.len(), |i: int| self.scopes@[i].name@)
    }

    /// The totals at the opening of each open scope, outermost first.
    pub closed spec fn scope_starts(&self) -> Seq<Cost> {
        Seq::new(
            self.scopes@.len(),
            |i: int|
                Cost {
                    constants: self.scopes@[i].constants as nat,
                    public: self.scopes@[i].public as nat,
                    private: self.scopes@[i].private as nat,
                    constraints: self.scopes@[i].constraints as nat,
                },
        )
    }

    /// The totals from which the innermost scope counts: those at its
    /// opening, or zero when no scope is open.
    pub open spec fn scope_start(&self) -> Cost {
        if self.depth() == 0 {
            Cost::zero()
        } else {
            self.scope_starts().last()
        }
    }

    /// What was emitted since the innermost open scope was opened; the whole
    /// tally when no scope is open.
    pub open spec fn scope_tally(&self) -> Cost {
        Cost {
            constants: (self.tally().constants - self.scope_start().constants) as nat,
            public: (self.tally().public - self.scope_start().public) as nat,
            private: (self.tally().private - self.scope_start().private) as nat,
            constraints: (self.tally().constraints - self.scope_start().constraints) as nat,
        }
    }

    /// Whether `cost` can be added to the tally without leaving `u64`.
    pub open spec fn fits(&self, cost: Cost) -> bool {
        &&& self.tally().constants + cost.constants <= u64::MAX
        &&& self.tally().public + cost.public <= u64::MAX
        &&& self.tally().private + cost.private <= u64::MAX
        &&& self.tally().constraints + cost.constraints <= u64::MAX
    }

    /// Whether this session is `before` with `cost` emitted into it and the
    /// same scopes open.
    pub open spec fn extends(&self, before: Circuit, cost: Cost) -> bool {
        &&& self.wf()
        &&& self.tally() == before.tally().plus(cost)
        &&& self.depth() == before.depth()
        &&& self.scope_names() == before.scope_names()
        &&& self.scope_starts() == before.scope_starts()
    }

    /// In a well-formed session the innermost scope starts within the
    /// totals, so that the scope's tally and its start add up to them.
    pub proof fn lemma_scope_tally(&self)
        requires
            self.wf(),
        ensures
            self.scope_starts().len() == self.depth(),
            self.scope_names().len() == self.depth(),
            self.scope_start().plus(self.scope_tally()) == self.tally(),
    {
        if self.depth() > 0 {
            let last = self.scopes@.len() - 1;
            assert(self.scopes@[last].constants <= self.constants);
        }
    }

    /// A fresh session: nothing emitted, no scope open.
    pub fn new() -> (r: Circuit)
        ensures
            r.wf(),
            r.tally() == Cost::zero(),
            r.depth() == 0,
            r.scope_names() == Seq::<Seq<char>>::empty(),
            r.scope_starts() == Seq::<Cost>::empty(),
    {
        Circuit { constants: 0, public: 0, private: 0, constraints: 0, scopes: Vec::new() }
    }

    /// Discards everything emitted and closes every scope.
    pub fn reset(&mut self)
        ensures
            final(self).wf(),
            final(self).tally() == Cost::zero(),
            final(self).depth() == 0,
            final(self).scope_names() == Seq::<Seq<char>>::empty(),
            final(self).scope_starts() == Seq::<Cost>::empty(),
    {
        self.scopes.clear();
        self.constants = 0;
        self.public = 0;
        self.private = 0;
        self.constraints = 0;
    }

    /// Adds what a gadget emits to the tally. Open scopes stay as they are.
    pub fn charge(&mut self, constants: u64, public: u64, private: u64, constraints: u64)
        requires
            old(self).wf(),
            old(self).fits(
                Cost::new(constants as nat, public as nat, private as nat, constraints as nat),
            ),
        ensures
            final(self).extends(
                *old(self),
                Cost::new(constants as nat, public as nat, private as nat, constraints as nat),
            ),
    {
        self.constants = self.constants + constants;
        self.public = self.public + public;
        self.private = self.private + private;
        self.constraints = self.constraints + constraints;
    }

    /// Opens a scope named `name` inside the scopes that are open.
    pub fn enter_scope(&mut self, name: &str)
        requires
            old(self).wf(),
        ensures
            final(self).wf(),
            final(self).tally() == old(self).tally(),
            final(self).depth() == old(self).depth() + 1,
            final(self).scope_names() == old(self).scope_names().push(name@),
            final(self).scope_starts() == old(self).scope_starts().push(old(self).tally()),
            final(self).scope_tally() == Cost::zero(),
    {
        let scope = Scope {
            name: name.to_owned(),
            constants: self.constants,
            public: self.public,
            private: self.private,
            constraints: self.constraints,
        };
        self.scopes.push(scope);
        assert(final(self).scope_names() =~= old(self).scope_names().push(name@));
        assert(final(self).scope_starts() =~= old(self).scope_starts().push(old(self).tally()));
    }

    /// Closes the innermost scope and returns what was emitted inside it, as
    /// an exact count. Returns `None`, and changes nothing, when no scope is
    /// open.
    pub fn exit_scope(&mut self) -> (r: Option<Count>)
        requires
            old(self).wf(),
        ensures
            final(self).wf(),
            final(self).tally() == old(self).tally(),
            old(self).depth() == 0 ==> r is None && final(self).depth() == 0
                && final(self).scope_names() == old(self).scope_names()
                && final(self).scope_starts() == old(self).scope_starts(),
            old(self).depth() > 0 ==> {
                &&& r matches Some(count)
                &&& count.kind() == crate::count::CountKind::Exact
                &&& count.cost() == old(self).scope_tally()
                &&& final(self).depth() == old(self).depth() - 1
                &&& final(self).scope_names() == old(self).scope_names().drop_last()
                &&& final(self).scope_starts() == old(self).scope_starts().drop_last()
            },
    {
        if self.scopes.len() == 0 {
            return None;
        }
        let ghost before = self.scopes@;
        let count = Count::is(
            self.num_constants_in_scope(),
            self.num_public_in_scope(),
            self.num_private_in_scope(),
            self.num_constraints_in_scope(),
        );
        let _ = self.scopes.pop();
        assert(self.scopes@ == before.drop_last());
        assert(final(self).scope_names() =~= old(self).scope_names().drop_last());
        assert(final(self).scope_starts() =~= old(self).scope_starts().drop_last());
        Some(count)
    }

    /// The name of the innermost open scope.
    pub fn scope_name(&self) -> (r: Option<String>)
        ensures
            self.depth() == 0 ==> r is None,
            self.depth() > 0 ==> (r matches Some(name) && name@ == self.scope_names().last()),
    {
        let n: usize = self.scopes.len();
        if n == 0 {
            None
        } else {
            Some(self.scopes[n - 1].name.clone())
        }
    }

    /// The number of constants.
    pub fn num_constants(&self) -> (r: u64)
        ensures
            r == self.tally().constants,
    {
        self.constants
    }

    /// The number of public wires.
    pub fn num_public(&self) -> (r: u64)
        ensures
            r == self.tally().public,
    {
        self.public
    }

    /// The number of private wires.
    pub fn num_private(&self) -> (r: u64)
        ensures
            r == self.tally().private,
    {
        self.private
    }

    /// The number of constraints.
    pub fn num_constraints(&self) -> (r: u64)
        ensures
            r == self.tally().constraints,
    {
        self.constraints
    }

    /// The number of constants emitted in the innermost open scope.
    pub fn num_constants_in_scope(&self) -> (r: u64)
        requires
            self.wf(),
        ensures
            r == self.scope_tally().constants,
    {
        let n: usize = self.scopes.len();
        if n == 0 {
            self.constants
        } else {
            self.constants - self.scopes[n - 1].constants
        }
    }

    /// The number of public wires emitted in the innermost open scope.
    pub fn num_public_in_scope(&self) -> (r: u64)
        requires
            self.wf(),
        ensures
            r == self.scope_tally().public,
    {
        let n: usize = self.scopes.len();
        if n == 0 {
            self.public
        } else {
            self.public - self.scopes[n - 1].public
        }
    }

    /// The number of private wires emitted in the innermost open scope.
    pub fn num_private_in_scope(&self) -> (r: u64)
        requires
            self.wf(),
        ensures
            r == self.scope_tally().private,
    {
        let n: usize = self.scopes.len();
        if n == 0 {
            self.private
        } else {
            self.private - self.scopes[n - 1].private
        }
    }

    /// The number of constraints emitted in the innermost open scope.
    pub fn num_constraints_in_scope(&self) -> (r: u64)
        requires
            self.wf(),
        ensures
            r == self.scope_tally().constraints,
    {
        let n: usize = self.scopes.len();
        if n == 0 {
            self.constraints
        } else {
            self.constraints - self.scopes[n - 1].constraints
        }
    }
}

} // verus!

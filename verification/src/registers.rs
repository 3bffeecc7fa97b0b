//! The registers of a running function: what each register holds, as a plain
//! value and as a value in a circuit.

use crate::circuit::Circuit;
use crate::circuit_literal::{literal_witness_cost, CircuitLiteral, CircuitLiteralView};
use crate::count::Cost;
use crate::error::InstructionError;
use crate::literal::{Literal, LiteralView};
use crate::mode::Mode;
use crate::operand::{Operand, OperandView};
use crate::register::{Register, RegisterView};
use vstd::prelude::*;

verus! {

/// What the registers hold, from the entries in the order they were
/// written.
pub open spec fn console_map(entries: Seq<(u64, Literal)>) -> Map<u64, LiteralView>
    decreases entries.len(),
{
    if entries.len() == 0 {
        Map::empty()
    } else {
        console_map(entries.drop_last()).insert(entries.last().0, entries.last().1@)
    }
}

/// What the registers hold in the circuit, from the entries in the order
/// they were written.
pub open spec fn circuit_map(entries: Seq<(u64, CircuitLiteral)>) -> Map<u64, CircuitLiteralView>
    decreases entries.len(),
{
    if entries.len() == 0 {
        Map::empty()
    } else {
        circuit_map(entries.drop_last()).insert(entries.last().0, entries.last().1@)
    }
}

/// What loading an operand into a circuit adds to it: the wires of a
/// literal, as constants; nothing for a register.
pub open spec fn load_cost(operand: OperandView) -> Cost {
    match operand {
        OperandView::Literal(literal) => if literal is Address {
            Cost::zero()
        } else {
            literal_witness_cost(literal, Mode::Constant)
        },
        OperandView::Register(_) => Cost::zero(),
    }
}

/// The registers of a running function.
pub struct Registers {
    console: Vec<(u64, Literal)>,
    circuit: Vec<(u64, CircuitLiteral)>,
}

impl Registers {
    /// What each register holds as a plain value.
    pub closed spec fn console(&self) -> Map<u64, LiteralView> {
        console_map(self.console@)
    }

    /// What each register holds in the circuit.
    pub closed spec fn circuit(&self) -> Map<u64, CircuitLiteralView> {
        circuit_map(self.circuit@)
    }

    /// What loading `operand` as a plain value gives: a literal is itself, a
    /// register is what it holds, and a member is of a struct, which no
    /// register holds.
    pub open spec fn load_spec(&self, operand: OperandView) -> Result<
        LiteralView,
        InstructionError,
    > {
        match operand {
            OperandView::Literal(literal) => Ok(literal),
            OperandView::Register(register) => {
                let locator = register.locator();
                if !self.console().contains_key(locator) {
                    Err(InstructionError::RegisterNotFound { locator })
                } else if register is Member {
                    Err(InstructionError::MemberNotFound { locator })
                } else {
                    Ok(self.console()[locator])
                }
            },
        }
    }

    /// What loading `operand` into a circuit gives: a literal is witnessed
    /// as a constant, but for an address, which has no wires; a register is
    /// what it holds.
    pub open spec fn load_circuit_spec(&self, operand: OperandView) -> Result<
        CircuitLiteralView,
        InstructionError,
    > {
        match operand {
            OperandView::Literal(literal) => if literal is Address {
                Err(InstructionError::NotInCircuit)
            } else {
                Ok(CircuitLiteralView { literal, mode: Mode::Constant })
            },
            OperandView::Register(register) => {
                let locator = register.locator();
                if !self.circuit().contains_key(locator) {
                    Err(InstructionError::RegisterNotFound { locator })
                } else if register is Member {
                    Err(InstructionError::MemberNotFound { locator })
                } else {
                    Ok(self.circuit()[locator])
                }
            },
        }
    }

    /// Where a value can be stored: in a register, not in a member, that
    /// holds nothing yet.
    pub open spec fn store_spec(occupied: Set<u64>, register: RegisterView) -> Result<
        u64,
        InstructionError,
    > {
        let locator = register.locator();
        if register is Member {
            Err(InstructionError::StoreToMember { locator })
        } else if occupied.contains(locator) {
            Err(InstructionError::RegisterOccupied { locator })
        } else {
            Ok(locator)
        }
    }

    /// Registers that hold nothing.
    pub fn new() -> (r: Registers)
        ensures
            r.console() == Map::<u64, LiteralView>::empty(),
            r.circuit() == Map::<u64, CircuitLiteralView>::empty(),
    {
        Registers { console: Vec::new(), circuit: Vec::new() }
    }

    /// The position of the last entry for `locator`.
    fn find_console(&self, locator: u64) -> (r: Option<usize>)
        ensures
            r is Some <==> self.console().contains_key(locator),
            r matches Some(index) ==> index < self.console@.len() && self.console@[index as int].1@
                == self.console()[locator],
    {
        let mut k: usize = self.console.len();
        assert(self.console@.take(k as int) =~= self.console@);
        while k > 0
            invariant
                k <= self.console@.len(),
                self.console().contains_key(locator) <==> console_map(
                    self.console@.take(k as int),
                ).contains_key(locator),
                self.console().contains_key(locator) ==> self.console()[locator] == console_map(
                    self.console@.take(k as int),
                )[locator],
            decreases k,
        {
            k = k - 1;
            assert(self.console@.take(k + 1).drop_last() =~= self.console@.take(k as int));
            if self.console[k].0 == locator {
                return Some(k);
            }
        }
        None
    }

    /// The position of the last entry for `locator`.
    fn find_circuit(&self, locator: u64) -> (r: Option<usize>)
        ensures
            r is Some <==> self.circuit().contains_key(locator),
            r matches Some(index) ==> index < self.circuit@.len() && self.circuit@[index as int].1@
                == self.circuit()[locator],
    {
        let mut k: usize = self.circuit.len();
        assert(self.circuit@.take(k as int) =~= self.circuit@);
        while k > 0
            invariant
                k <= self.circuit@.len(),
                self.circuit().contains_key(locator) <==> circuit_map(
                    self.circuit@.take(k as int),
                ).contains_key(locator),
                self.circuit().contains_key(locator) ==> self.circuit()[locator] == circuit_map(
                    self.circuit@.take(k as int),
                )[locator],
            decreases k,
        {
            k = k - 1;
            assert(self.circuit@.take(k + 1).drop_last() =~= self.circuit@.take(k as int));
            if self.circuit[k].0 == locator {
                return Some(k);
            }
        }
        None
    }

    /// Loads an operand as a plain value.
    pub fn load(&self, operand: &Operand) -> (r: Result<Literal, InstructionError>)
        ensures
            match r {
                Ok(value) => self.load_spec(operand@) == Ok::<LiteralView, InstructionError>(
                    value@,
                ),
                Err(error) => self.load_spec(operand@) == Err::<LiteralView, InstructionError>(
                    error,
                ),
            },
    {
        match operand {
            Operand::Literal(literal) => Ok(literal.duplicate()),
            Operand::Register(register) => {
                let locator: u64 = register.locator();
                match self.find_console(locator) {
                    None => Err(InstructionError::RegisterNotFound { locator }),
                    Some(index) => match register {
                        Register::Member(_, _) => Err(InstructionError::MemberNotFound { locator }),
                        Register::Locator(_) => Ok(self.console[index].1.duplicate()),
                    },
                }
            },
        }
    }

    /// Stores a plain value in a register.
    pub fn store(&mut self, register: &Register, value: Literal) -> (r: Result<
        (),
        InstructionError,
    >)
        ensures
            final(self).circuit() == old(self).circuit(),
            match r {
                Ok(()) => Self::store_spec(old(self).console().dom(), register@) == Ok::<
                    u64,
                    InstructionError,
                >(register@.locator()) && final(self).console() == old(self).console().insert(
                    register@.locator(),
                    value@,
                ),
                Err(error) => Self::store_spec(old(self).console().dom(), register@) == Err::<
                    u64,
                    InstructionError,
                >(error) && final(self).console() == old(self).console(),
            },
    {
        let locator: u64 = register.locator();
        match register {
            Register::Member(_, _) => Err(InstructionError::StoreToMember { locator }),
            Register::Locator(_) => {
                if self.find_console(locator).is_some() {
                    return Err(InstructionError::RegisterOccupied { locator });
                }
                let ghost before = self.console@;
                self.console.push((locator, value));
                assert(self.console@.drop_last() =~= before);
                Ok(())
            },
        }
    }

    /// Loads an operand into a circuit.
    pub fn load_circuit(&self, cs: &mut Circuit, operand: &Operand) -> (r: Result<
        CircuitLiteral,
        InstructionError,
    >)
        requires
            operand@.wf(),
            old(cs).wf(),
            old(cs).fits(load_cost(operand@)),
        ensures
            final(cs).extends(*old(cs), load_cost(operand@)),
            match r {
                Ok(value) => self.load_circuit_spec(operand@) == Ok::<
                    CircuitLiteralView,
                    InstructionError,
                >(value@),
                Err(error) => self.load_circuit_spec(operand@) == Err::<
                    CircuitLiteralView,
                    InstructionError,
                >(error),
            },
    {
        assert(cs.tally().plus(Cost::zero()) == cs.tally());
        match operand {
            Operand::Literal(literal) => match CircuitLiteral::new(cs, Mode::Constant, literal) {
                Some(witness) => Ok(witness),
                None => Err(InstructionError::NotInCircuit),
            },
            Operand::Register(register) => {
                let locator: u64 = register.locator();
                match self.find_circuit(locator) {
                    None => Err(InstructionError::RegisterNotFound { locator }),
                    Some(index) => match register {
                        Register::Member(_, _) => Err(InstructionError::MemberNotFound { locator }),
                        Register::Locator(_) => Ok(self.circuit[index].1.duplicate()),
                    },
                }
            },
        }
    }

    /// Stores a value of a circuit in a register.
    pub fn store_circuit(&mut self, register: &Register, value: CircuitLiteral) -> (r: Result<
        (),
        InstructionError,
    >)
        ensures
            final(self).console() == old(self).console(),
            match r {
                Ok(()) => Self::store_spec(old(self).circuit().dom(), register@) == Ok::<
                    u64,
                    InstructionError,
                >(register@.locator()) && final(self).circuit() == old(self).circuit().insert(
                    register@.locator(),
                    value@,
                ),
                Err(error) => Self::store_spec(old(self).circuit().dom(), register@) == Err::<
                    u64,
                    InstructionError,
                >(error) && final(self).circuit() == old(self).circuit(),
            },
    {
        let locator: u64 = register.locator();
        match register {
            Register::Member(_, _) => Err(InstructionError::StoreToMember { locator }),
            Register::Locator(_) => {
                if self.find_circuit(locator).is_some() {
                    return Err(InstructionError::RegisterOccupied { locator });
                }
                let ghost before = self.circuit@;
                self.circuit.push((locator, value));
                assert(self.circuit@.drop_last() =~= before);
                Ok(())
            },
        }
    }
}

} // verus!

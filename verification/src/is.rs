//! The `is.eq` and `is.neq` instructions: whether two values are equal, as a
//! plain computation, in a circuit, and in the types.

use crate::boolean::Wire;
use crate::circuit::Circuit;
use crate::circuit_literal::{literal_equality_cost, CircuitLiteral, CircuitLiteralView};
use crate::count::Cost;
use crate::error::InstructionError;
use crate::literal::{Literal, LiteralType, LiteralView};
use crate::locator::ProgramID;
use crate::mode::Mode;
use crate::opcode::Opcode;
use crate::operand::{operands_view, Operand, OperandView};
use crate::register::{Register, RegisterView};
use crate::registers::{load_cost, Registers};
use crate::types::{PlaintextType, PlaintextTypeView, RegisterType, RegisterTypeView};
use vstd::prelude::*;

verus! {

/// An instruction that tests two operands for equality, `is.eq` where
/// `VARIANT` is 0, or for inequality, `is.neq` where it is 1, and writes the
/// boolean to its destination.
#[derive(Clone, Debug, PartialEq, Eq, Hash)]
pub struct IsInstruction<const VARIANT: u8> {
    /// The operands.
    operands: Vec<Operand>,
    /// The destination register.
    destination: Register,
}

/// Tests two operands for equality.
pub type IsEq = IsInstruction<0>;

/// Tests two operands for inequality.
pub type IsNeq = IsInstruction<1>;

/// The opcode of the variant: `is.eq` of variant 0, `is.neq` of the other.
pub open spec fn is_opcode(variant: u8) -> Opcode {
    if variant == 0 {
        Opcode::IsEq
    } else {
        Opcode::IsNeq
    }
}

/// What the instruction of the given variant makes of whether its operands
/// are equal.
pub open spec fn is_outcome(variant: u8, equal: bool) -> Result<bool, InstructionError> {
    if variant == 0 {
        Ok(equal)
    } else if variant == 1 {
        Ok(!equal)
    } else {
        Err(InstructionError::InvalidVariant { variant })
    }
}

/// The type of what the instruction writes: a boolean.
pub open spec fn is_output_type() -> RegisterTypeView {
    RegisterTypeView::Plaintext(PlaintextTypeView::Literal(LiteralType::Boolean))
}

impl<const VARIANT: u8> IsInstruction<VARIANT> {
    /// The operands.
    pub closed spec fn operands_spec(&self) -> Seq<OperandView> {
        operands_view(self.operands@)
    }

    /// The destination register.
    pub closed spec fn destination_spec(&self) -> RegisterView {
        self.destination@
    }

    /// The instruction with the given operands and destination.
    pub fn new(operands: Vec<Operand>, destination: Register) -> (r: Self)
        ensures
            r.operands_spec() == operands_view(operands@),
            r.destination_spec() == destination@,
    {
        IsInstruction { operands, destination }
    }

    /// The opcode.
    pub fn opcode() -> (r: Opcode)
        requires
            VARIANT <= 1,
        ensures
            r == is_opcode(VARIANT),
    {
        if VARIANT == 0 {
            Opcode::IsEq
        } else {
            Opcode::IsNeq
        }
    }

    /// The operands.
    pub fn operands(&self) -> (r: &[Operand])
        ensures
            operands_view(r@) == self.operands_spec(),
    {
        self.operands.as_slice()
    }

    /// The destination register.
    pub fn destination(&self) -> (r: &Register)
        ensures
            r@ == self.destination_spec(),
    {
        &self.destination
    }

    /// The destination registers: the one there is.
    pub fn destinations(&self) -> (r: Vec<Register>)
        ensures
            r@.len() == 1,
            r@[0]@ == self.destination_spec(),
    {
        let mut destinations: Vec<Register> = Vec::new();
        destinations.push(self.destination.duplicate());
        destinations
    }
}

/// The stack of a program: the context in which its instructions are
/// checked and run.
#[derive(Clone, Debug, PartialEq, Eq)]
pub struct Stack {
    /// The program.
    program_id: ProgramID,
}

impl Stack {
    /// The program.
    pub closed spec fn program_id_spec(&self) -> ProgramID {
        self.program_id
    }

    /// The stack of the given program.
    pub fn new(program_id: ProgramID) -> (r: Stack)
        ensures
            r.program_id_spec() == program_id,
    {
        Stack { program_id }
    }

    /// The program.
    pub fn program_id(&self) -> (r: &ProgramID)
        ensures
            *r == self.program_id_spec(),
    {
        &self.program_id
    }

    /// What evaluating the instruction writes, and where: the boolean that
    /// the variant makes of whether the two operands hold the same value.
    pub open spec fn evaluate_is_spec(
        variant: u8,
        operands: Seq<OperandView>,
        destination: RegisterView,
        registers: &Registers,
    ) -> Result<(u64, LiteralView), InstructionError> {
        if operands.len() != 2 {
            Err(
                InstructionError::OperandCount {
                    opcode: is_opcode(variant),
                    expected: 2,
                    found: operands.len() as usize,
                },
            )
        } else {
            match registers.load_spec(operands[0]) {
                Err(error) => Err(error),
                Ok(first) => match registers.load_spec(operands[1]) {
                    Err(error) => Err(error),
                    Ok(second) => match is_outcome(variant, first == second) {
                        Err(error) => Err(error),
                        Ok(value) => match Registers::store_spec(
                            registers.console().dom(),
                            destination,
                        ) {
                            Err(error) => Err(error),
                            Ok(locator) => Ok((locator, LiteralView::Boolean(value))),
                        },
                    },
                },
            }
        }
    }

    /// What executing the instruction writes, and where: the wire that the
    /// variant makes of whether the two operands hold the same value.
    pub open spec fn execute_is_spec(
        variant: u8,
        operands: Seq<OperandView>,
        destination: RegisterView,
        registers: &Registers,
    ) -> Result<(u64, CircuitLiteralView), InstructionError> {
        if operands.len() != 2 {
            Err(
                InstructionError::OperandCount {
                    opcode: is_opcode(variant),
                    expected: 2,
                    found: operands.len() as usize,
                },
            )
        } else {
            match registers.load_circuit_spec(operands[0]) {
                Err(error) => Err(error),
                Ok(first) => match registers.load_circuit_spec(operands[1]) {
                    Err(error) => Err(error),
                    Ok(second) => if variant > 1 {
                        Err(InstructionError::InvalidVariant { variant })
                    } else if first.literal.literal_type() != second.literal.literal_type() {
                        Err(InstructionError::DifferentTypes)
                    } else {
                        match Registers::store_spec(registers.circuit().dom(), destination) {
                            Err(error) => Err(error),
                            Ok(locator) => Ok(
                                (
                                    locator,
                                    CircuitLiteralView {
                                        literal: LiteralView::Boolean(
                                            (first.literal == second.literal) == (variant == 0),
                                        ),
                                        mode: first.mode.combine_spec(second.mode),
                                    },
                                ),
                            ),
                        }
                    },
                },
            }
        }
    }

    /// What executing the instruction adds to a circuit: the wires of the
    /// operands that are literals, and the comparison, as far as the
    /// execution gets.
    pub open spec fn execute_is_cost(
        variant: u8,
        operands: Seq<OperandView>,
        registers: &Registers,
    ) -> Cost {
        if operands.len() != 2 {
            Cost::zero()
        } else {
            match registers.load_circuit_spec(operands[0]) {
                Err(_) => Cost::zero(),
                Ok(first) => match registers.load_circuit_spec(operands[1]) {
                    Err(_) => load_cost(operands[0]),
                    Ok(second) => if variant > 1 || first.literal.literal_type()
                        != second.literal.literal_type() {
                        load_cost(operands[0]).plus(load_cost(operands[1]))
                    } else {
                        load_cost(operands[0]).plus(load_cost(operands[1])).plus(
                            literal_equality_cost(
                                first.literal.literal_type(),
                                first.mode == Mode::Constant && second.mode == Mode::Constant,
                            ),
                        )
                    },
                },
            }
        }
    }

    /// Evaluates the instruction.
    #[inline]
    pub fn evaluate_is<const VARIANT: u8>(
        &self,
        is: &IsInstruction<VARIANT>,
        registers: &mut Registers,
    ) -> (r: Result<(), InstructionError>)
        requires
            VARIANT <= 1 || is.operands_spec().len() == 2,
        ensures
            final(registers).circuit() == old(registers).circuit(),
            match r {
                Ok(()) => Self::evaluate_is_spec(
                    VARIANT,
                    is.operands_spec(),
                    is.destination_spec(),
                    old(registers),
                ) matches Ok((locator, value)) && final(registers).console() == old(registers).console().insert(locator, value),
                Err(error) => Self::evaluate_is_spec(
                    VARIANT,
                    is.operands_spec(),
                    is.destination_spec(),
                    old(registers),
                ) == Err::<(u64, LiteralView), InstructionError>(error) && final(registers).console() == old(registers).console(),
            },
    {
        // Ensure the number of operands is correct.
        let operands: &[Operand] = is.operands();
        if operands.len() != 2 {
            return Err(
                InstructionError::OperandCount {
                    opcode: IsInstruction::<VARIANT>::opcode(),
                    expected: 2,
                    found: operands.len(),
                },
            );
        }
        // Retrieve the inputs.
        let input_a: Literal = match registers.load(&operands[0]) {
            Ok(value) => value,
            Err(error) => {
                return Err(error);
            },
        };
        let input_b: Literal = match registers.load(&operands[1]) {
            Ok(value) => value,
            Err(error) => {
                return Err(error);
            },
        };
        // Check the inputs.
        let output: Literal = if VARIANT == 0 {
            Literal::Boolean(input_a.equals(&input_b))
        } else if VARIANT == 1 {
            Literal::Boolean(!input_a.equals(&input_b))
        } else {
            return Err(InstructionError::InvalidVariant { variant: VARIANT });
        };
        // Store the output.
        registers.store(is.destination(), output)
    }

    /// Executes the instruction.
    #[inline]
    pub fn execute_is<const VARIANT: u8>(
        &self,
        is: &IsInstruction<VARIANT>,
        registers: &mut Registers,
        cs: &mut Circuit,
    ) -> (r: Result<(), InstructionError>)
        requires
            VARIANT <= 1 || is.operands_spec().len() == 2,
            forall|i: int| 0 <= i < is.operands_spec().len() ==> (#[trigger] is.operands_spec()[i]).wf(),
            old(cs).wf(),
            old(cs).fits(Self::execute_is_cost(VARIANT, is.operands_spec(), old(registers))),
        ensures
            final(registers).console() == old(registers).console(),
            final(cs).extends(
                *old(cs),
                Self::execute_is_cost(VARIANT, is.operands_spec(), old(registers)),
            ),
            match r {
                Ok(()) => Self::execute_is_spec(
                    VARIANT,
                    is.operands_spec(),
                    is.destination_spec(),
                    old(registers),
                ) matches Ok((locator, value)) && final(registers).circuit() == old(registers).circuit().insert(locator, value),
                Err(error) => Self::execute_is_spec(
                    VARIANT,
                    is.operands_spec(),
                    is.destination_spec(),
                    old(registers),
                ) == Err::<(u64, CircuitLiteralView), InstructionError>(error) && final(registers).circuit() == old(registers).circuit(),
            },
    {
        assert(cs.tally().plus(Cost::zero()) == cs.tally());
        // Ensure the number of operands is correct.
        let operands: &[Operand] = is.operands();
        if operands.len() != 2 {
            return Err(
                InstructionError::OperandCount {
                    opcode: IsInstruction::<VARIANT>::opcode(),
                    expected: 2,
                    found: operands.len(),
                },
            );
        }
        assert(operands@[0]@ == is.operands_spec()[0]);
        assert(operands@[1]@ == is.operands_spec()[1]);
        proof {
            // A load that fails adds nothing.
            assert(registers.load_circuit_spec(operands@[0]@) is Err ==> load_cost(operands@[0]@)
                == Cost::zero());
            assert(registers.load_circuit_spec(operands@[1]@) is Err ==> load_cost(operands@[1]@)
                == Cost::zero());
            assert(load_cost(operands@[0]@).plus(Cost::zero()) == load_cost(operands@[0]@));
        }
        // Retrieve the inputs.
        let input_a: CircuitLiteral = match registers.load_circuit(cs, &operands[0]) {
            Ok(value) => value,
            Err(error) => {
                return Err(error);
            },
        };
        let input_b: CircuitLiteral = match registers.load_circuit(cs, &operands[1]) {
            Ok(value) => value,
            Err(error) => {
                return Err(error);
            },
        };
        // Check the inputs.
        if VARIANT > 1 {
            return Err(InstructionError::InvalidVariant { variant: VARIANT });
        }
        let equal = match input_a.is_equal(cs, &input_b) {
            Some(equal) => equal,
            None => {
                return Err(InstructionError::DifferentTypes);
            },
        };
        let output: CircuitLiteral = if VARIANT == 0 {
            CircuitLiteral::Boolean(equal)
        } else {
            CircuitLiteral::Boolean(
                crate::boolean::Boolean::from_wire(
                    Wire { mode: equal.eject_mode(), value: !equal.eject_value() },
                ),
            )
        };
        // Store the output.
        registers.store_circuit(is.destination(), output)
    }

    /// Returns the output type from the given program and input types.
    #[inline]
    pub fn is_output_types<const VARIANT: u8>(
        &self,
        is: &IsInstruction<VARIANT>,
        input_types: &[RegisterType],
    ) -> (r: Result<Vec<RegisterType>, InstructionError>)
        requires
            VARIANT <= 1 || (input_types@.len() == 2 && input_types@[0]@ == input_types@[1]@
                && is.operands_spec().len() == 2),
        ensures
            input_types@.len() != 2 ==> r == Err::<Vec<RegisterType>, InstructionError>(
                InstructionError::InputCount {
                    opcode: is_opcode(VARIANT),
                    expected: 2,
                    found: input_types@.len() as usize,
                },
            ),
            input_types@.len() == 2 && input_types@[0]@ != input_types@[1]@ ==> (r matches Err(
                InstructionError::InputTypes { opcode, first, second },
            ) && opcode == is_opcode(VARIANT) && first@ == input_types@[0]@ && second@
                == input_types@[1]@),
            input_types@.len() == 2 && input_types@[0]@ == input_types@[1]@
                && is.operands_spec().len() != 2 ==> r == Err::<
                Vec<RegisterType>,
                InstructionError,
            >(
                InstructionError::OperandCount {
                    opcode: is_opcode(VARIANT),
                    expected: 2,
                    found: is.operands_spec().len() as usize,
                },
            ),
            input_types@.len() == 2 && input_types@[0]@ == input_types@[1]@
                && is.operands_spec().len() == 2 && VARIANT > 1 ==> r == Err::<
                Vec<RegisterType>,
                InstructionError,
            >(InstructionError::InvalidVariant { variant: VARIANT }),
            input_types@.len() == 2 && input_types@[0]@ == input_types@[1]@
                && is.operands_spec().len() == 2 && VARIANT <= 1 ==> (r matches Ok(types)
                && types@.len() == 1 && types@[0]@ == is_output_type()),
    {
        // Ensure the number of input types is correct.
        if input_types.len() != 2 {
            return Err(
                InstructionError::InputCount {
                    opcode: IsInstruction::<VARIANT>::opcode(),
                    expected: 2,
                    found: input_types.len(),
                },
            );
        }
        // Ensure the operands are of the same type.
        if !input_types[0].equals(&input_types[1]) {
            return Err(
                InstructionError::InputTypes {
                    opcode: IsInstruction::<VARIANT>::opcode(),
                    first: input_types[0].duplicate(),
                    second: input_types[1].duplicate(),
                },
            );
        }
        // Ensure the number of operands is correct.
        if is.operands().len() != 2 {
            return Err(
                InstructionError::OperandCount {
                    opcode: IsInstruction::<VARIANT>::opcode(),
                    expected: 2,
                    found: is.operands().len(),
                },
            );
        }
        if VARIANT <= 1 {
            let mut types: Vec<RegisterType> = Vec::new();
            types.push(RegisterType::Plaintext(PlaintextType::Literal(LiteralType::Boolean)));
            Ok(types)
        } else {
            Err(InstructionError::InvalidVariant { variant: VARIANT })
        }
    }
}

/// What is executed in a circuit holds what is evaluated plainly: where
/// both succeed on operands that hold the same values in the circuit as
/// outside it, the wire that execution writes holds the boolean that
/// evaluation writes.
pub proof fn lemma_execution_agrees_with_evaluation(
    variant: u8,
    operands: Seq<OperandView>,
    destination: RegisterView,
    registers: &Registers,
)
    requires
        Stack::evaluate_is_spec(variant, operands, destination, registers) is Ok,
        Stack::execute_is_spec(variant, operands, destination, registers) is Ok,
        forall|i: int|
            0 <= i < operands.len() ==> (registers.load_circuit_spec(
                #[trigger] operands[i],
            ) matches Ok(loaded) && registers.load_spec(operands[i]) == Ok::<
                LiteralView,
                InstructionError,
            >(loaded.literal)),
    ensures
        Stack::execute_is_spec(variant, operands, destination, registers).unwrap().1.literal
            == Stack::evaluate_is_spec(variant, operands, destination, registers).unwrap().1,
{
    assert(operands.len() == 2);
    let first = registers.load_spec(operands[0]).unwrap();
    let second = registers.load_spec(operands[1]).unwrap();
    assert(registers.load_circuit_spec(operands[0]).unwrap().literal == first);
    assert(registers.load_circuit_spec(operands[1]).unwrap().literal == second);
}

} // verus!

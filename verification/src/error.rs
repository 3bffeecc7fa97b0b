//! What can go wrong when an instruction is checked or run.

use crate::opcode::Opcode;
use crate::text::{
    ascii,
    chars_of,
    decimal,
    lemma_decimal,
    push_decimal,
    push_str,
    string_from_ascii,
};
use crate::types::RegisterType;
use vstd::prelude::*;

verus! {

/// Why an instruction was refused.
#[derive(Clone, Debug, PartialEq, Eq)]
pub enum InstructionError {
    /// The instruction was given another number of input types than it
    /// takes.
    InputCount { opcode: Opcode, expected: usize, found: usize },
    /// The instruction takes inputs of one type and was given two.
    InputTypes { opcode: Opcode, first: RegisterType, second: RegisterType },
    /// The instruction holds another number of operands than it takes.
    OperandCount { opcode: Opcode, expected: usize, found: usize },
    /// The instruction is of a variant that does not exist.
    InvalidVariant { variant: u8 },
    /// The register that was to be read holds nothing.
    RegisterNotFound { locator: u64 },
    /// The register that was to be written holds something already.
    RegisterOccupied { locator: u64 },
    /// The register holds no struct that a member could be read from.
    MemberNotFound { locator: u64 },
    /// A member of a register was to be written.
    StoreToMember { locator: u64 },
    /// The literal cannot be put on wires.
    NotInCircuit,
    /// Two values of different types were to be compared in a circuit.
    DifferentTypes,
}

impl InstructionError {
    /// The message of the error.
    pub open spec fn message_spec(&self) -> Seq<u8> {
        match self {
            InstructionError::InputCount { opcode, expected, found } => ascii("Instruction '"@)
                + ascii(opcode.name()) + ascii("' expects "@) + decimal(*expected as nat) + ascii(
                " inputs, found "@,
            ) + decimal(*found as nat) + ascii(" inputs"@),
            InstructionError::InputTypes { opcode, first, second } => ascii("Instruction '"@)
                + ascii(opcode.name()) + ascii(
                "' expects inputs of the same type. Found inputs of type '"@,
            ) + first@.text() + ascii("' and '"@) + second@.text() + ascii("'"@),
            InstructionError::OperandCount { opcode, expected, found } => ascii("Instruction '"@)
                + ascii(opcode.name()) + ascii("' expects "@) + decimal(*expected as nat) + ascii(
                " operands, found "@,
            ) + decimal(*found as nat) + ascii(" operands"@),
            InstructionError::InvalidVariant { variant } => ascii("Invalid 'is' variant: "@)
                + decimal(*variant as nat),
            InstructionError::RegisterNotFound { locator } => ascii("Register 'r"@) + decimal(
                *locator as nat,
            ) + ascii("' does not exist"@),
            InstructionError::RegisterOccupied { locator } => ascii(
                "Cannot write to occupied register 'r"@,
            ) + decimal(*locator as nat) + ascii("'"@),
            InstructionError::MemberNotFound { locator } => ascii("Register 'r"@) + decimal(
                *locator as nat,
            ) + ascii("' holds no struct"@),
            InstructionError::StoreToMember { locator } => ascii(
                "Cannot store to a member of register 'r"@,
            ) + decimal(*locator as nat) + ascii("'"@),
            InstructionError::NotInCircuit => ascii("The literal cannot be put on wires"@),
            InstructionError::DifferentTypes => ascii("Cannot compare values of different types"@),
        }
    }

    /// The message of the error.
    pub fn message(&self) -> (r: String)
        ensures
            r@ == chars_of(self.message_spec()),
    {
        let mut out: Vec<u8> = Vec::new();
        proof {
            reveal_strlit("Instruction '");
            reveal_strlit("' expects ");
            reveal_strlit(" inputs, found ");
            reveal_strlit(" inputs");
            reveal_strlit("' expects inputs of the same type. Found inputs of type '");
            reveal_strlit("' and '");
            reveal_strlit("'");
            reveal_strlit(" operands, found ");
            reveal_strlit(" operands");
            reveal_strlit("Invalid 'is' variant: ");
            reveal_strlit("Register 'r");
            reveal_strlit("' does not exist");
            reveal_strlit("Cannot write to occupied register 'r");
            reveal_strlit("' holds no struct");
            reveal_strlit("Cannot store to a member of register 'r");
            reveal_strlit("The literal cannot be put on wires");
            reveal_strlit("Cannot compare values of different types");
        }
        match self {
            InstructionError::InputCount { opcode, expected, found } => {
                proof {
                    lemma_decimal(*expected as nat);
                    lemma_decimal(*found as nat);
                }
                push_str(&mut out, "Instruction '");
                opcode.write_text(&mut out);
                push_str(&mut out, "' expects ");
                push_decimal(&mut out, *expected as u128);
                push_str(&mut out, " inputs, found ");
                push_decimal(&mut out, *found as u128);
                push_str(&mut out, " inputs");
            },
            InstructionError::InputTypes { opcode, first, second } => {
                push_str(&mut out, "Instruction '");
                opcode.write_text(&mut out);
                push_str(&mut out, "' expects inputs of the same type. Found inputs of type '");
                first.write_text(&mut out);
                push_str(&mut out, "' and '");
                second.write_text(&mut out);
                push_str(&mut out, "'");
            },
            InstructionError::OperandCount { opcode, expected, found } => {
                proof {
                    lemma_decimal(*expected as nat);
                    lemma_decimal(*found as nat);
                }
                push_str(&mut out, "Instruction '");
                opcode.write_text(&mut out);
                push_str(&mut out, "' expects ");
                push_decimal(&mut out, *expected as u128);
                push_str(&mut out, " operands, found ");
                push_decimal(&mut out, *found as u128);
                push_str(&mut out, " operands");
            },
            InstructionError::InvalidVariant { variant } => {
                proof {
                    lemma_decimal(*variant as nat);
                }
                push_str(&mut out, "Invalid 'is' variant: ");
                push_decimal(&mut out, *variant as u128);
            },
            InstructionError::RegisterNotFound { locator } => {
                proof {
                    lemma_decimal(*locator as nat);
                }
                push_str(&mut out, "Register 'r");
                push_decimal(&mut out, *locator as u128);
                push_str(&mut out, "' does not exist");
            },
            InstructionError::RegisterOccupied { locator } => {
                proof {
                    lemma_decimal(*locator as nat);
                }
                push_str(&mut out, "Cannot write to occupied register 'r");
                push_decimal(&mut out, *locator as u128);
                push_str(&mut out, "'");
            },
            InstructionError::MemberNotFound { locator } => {
                proof {
                    lemma_decimal(*locator as nat);
                }
                push_str(&mut out, "Register 'r");
                push_decimal(&mut out, *locator as u128);
                push_str(&mut out, "' holds no struct");
            },
            InstructionError::StoreToMember { locator } => {
                proof {
                    lemma_decimal(*locator as nat);
                }
                push_str(&mut out, "Cannot store to a member of register 'r");
                push_decimal(&mut out, *locator as u128);
                push_str(&mut out, "'");
            },
            InstructionError::NotInCircuit => {
                push_str(&mut out, "The literal cannot be put on wires");
            },
            InstructionError::DifferentTypes => {
                push_str(&mut out, "Cannot compare values of different types");
            },
        }
        assert(out@ =~= self.message_spec());
        string_from_ascii(out)
    }
}

} // verus!

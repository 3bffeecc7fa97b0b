//! Opcodes: the names of the instructions.

use crate::text::{all_ascii, ascii, push_str};
use vstd::prelude::*;
use vstd::string::StringExecFns;

verus! {

/// The opcode of an instruction.
#[derive(Clone, Copy, Debug, PartialEq, Eq, Hash, Structural)]
pub enum Opcode {
    /// Calls a function or a closure.
    Call,
    /// Tests whether two values are equal.
    IsEq,
    /// Tests whether two values are not equal.
    IsNeq,
}

impl Opcode {
    /// The opcode as it is written.
    pub open spec fn name(self) -> Seq<char> {
        match self {
            Opcode::Call => "call"@,
            Opcode::IsEq => "is.eq"@,
            Opcode::IsNeq => "is.neq"@,
        }
    }

    /// Appends the opcode as it is written.
    pub fn write_text(self, out: &mut Vec<u8>)
        ensures
            final(out)@ == old(out)@ + ascii(self.name()),
            all_ascii(ascii(self.name())),
    {
        proof {
            reveal_strlit("call");
            reveal_strlit("is.eq");
            reveal_strlit("is.neq");
        }
        match self {
            Opcode::Call => push_str(out, "call"),
            Opcode::IsEq => push_str(out, "is.eq"),
            Opcode::IsNeq => push_str(out, "is.neq"),
        }
    }

    /// The value as it is written.
    pub fn to_string(self) -> (r: String)
        ensures
            r@ == self.name(),
    {
        match self {
            Opcode::Call => String::from_str("call"),
            Opcode::IsEq => String::from_str("is.eq"),
            Opcode::IsNeq => String::from_str("is.neq"),
        }
    }
}

} // verus!

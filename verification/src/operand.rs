//! Operands: what an instruction takes as input.

use crate::codec::{lemma_regroup, CodecError};
use crate::literal::{
    decode_literal,
    lemma_literal_round_trip,
    lemma_literal_text_round_trip,
    parse_address,
    parse_boolean,
    parse_integer,
    parse_literal,
    Literal,
    LiteralView,
};
use crate::register::{
    decode_register,
    lemma_register_round_trip,
    lemma_register_text_round_trip,
    parse_register,
    Register,
    RegisterView,
};
use crate::text::{
    all_ascii,
    ascii,
    blank_or_end,
    chars_of,
    is_space,
    lemma_tag_mismatch,
    string_from_ascii,
};
use vstd::prelude::*;
use vstd::string::StringSliceAdditionalSpecFns;

verus! {

/// What an operand says.
pub enum OperandView {
    Literal(LiteralView),
    Register(RegisterView),
}

impl OperandView {
    /// Whether the parts are well formed.
    pub open spec fn wf(self) -> bool {
        match self {
            OperandView::Literal(literal) => literal.wf(),
            OperandView::Register(register) => register.wf(),
        }
    }

    /// The operand as it is written.
    pub open spec fn text(self) -> Seq<u8> {
        match self {
            OperandView::Literal(literal) => literal.text(),
            OperandView::Register(register) => register.text(),
        }
    }

    /// The operand in bytes: a byte that is 0 for a literal and 1 for a
    /// register, then the literal or the register.
    pub open spec fn encoding(self) -> Seq<u8> {
        match self {
            OperandView::Literal(literal) => seq![0u8] + literal.encoding(),
            OperandView::Register(register) => seq![1u8] + register.encoding(),
        }
    }
}

/// The operand that stands at `at` in a text, and where it ends: a literal,
/// or else a register.
pub open spec fn parse_operand(bytes: Seq<u8>, at: int) -> Option<(OperandView, int)> {
    match parse_literal(bytes, at) {
        Some((literal, end)) => Some((OperandView::Literal(literal), end)),
        None => match parse_register(bytes, at) {
            Some((register, end)) => Some((OperandView::Register(register), end)),
            None => None,
        },
    }
}

/// The operand that the bytes from `at` hold, and where it ends.
pub open spec fn decode_operand(bytes: Seq<u8>, at: int) -> Result<(OperandView, int), CodecError> {
    if at < 0 || at >= bytes.len() {
        Err(CodecError::UnexpectedEnd)
    } else if bytes[at] == 0 {
        match decode_literal(bytes, at + 1) {
            Err(error) => Err(error),
            Ok((literal, end)) => Ok((OperandView::Literal(literal), end)),
        }
    } else if bytes[at] == 1 {
        match decode_register(bytes, at + 1) {
            Err(error) => Err(error),
            Ok((register, end)) => Ok((OperandView::Register(register), end)),
        }
    } else {
        Err(CodecError::InvalidVariant)
    }
}

/// An operand: a literal written into the instruction, or a register.
#[derive(Clone, Debug, PartialEq, Eq, Hash)]
pub enum Operand {
    /// The operand is a literal.
    Literal(Literal),
    /// The operand is a register.
    Register(Register),
}

impl View for Operand {
    type V = OperandView;

    open spec fn view(&self) -> OperandView {
        match self {
            Operand::Literal(literal) => OperandView::Literal(literal@),
            Operand::Register(register) => OperandView::Register(register@),
        }
    }
}

/// What a sequence of operands says.
pub open spec fn operands_view(operands: Seq<Operand>) -> Seq<OperandView> {
    operands.map_values(|operand: Operand| operand@)
}

/// What a sequence of registers says.
pub open spec fn registers_view(registers: Seq<Register>) -> Seq<RegisterView> {
    registers.map_values(|register: Register| register@)
}

impl Operand {
    /// Whether the two are the same.
    pub fn equals(&self, other: &Operand) -> (r: bool)
        ensures
            r == (self@ == other@),
    {
        match (self, other) {
            (Operand::Literal(a), Operand::Literal(b)) => a.equals(b),
            (Operand::Register(a), Operand::Register(b)) => a.equals(b),
            _ => false,
        }
    }

    /// A copy.
    pub fn duplicate(&self) -> (r: Operand)
        ensures
            r@ == self@,
    {
        match self {
            Operand::Literal(literal) => Operand::Literal(literal.duplicate()),
            Operand::Register(register) => Operand::Register(register.duplicate()),
        }
    }

    /// Whether the operand is well formed: a literal is, and the path of a
    /// member is not empty.
    pub fn is_valid(&self) -> (r: bool)
        ensures
            r == self@.wf(),
    {
        match self {
            Operand::Literal(literal) => literal.is_valid(),
            Operand::Register(register) => register.is_valid(),
        }
    }

    /// Appends the operand as it is written.
    pub fn write_text(&self, out: &mut Vec<u8>)
        requires
            self@.wf(),
        ensures
            final(out)@ == old(out)@ + self@.text(),
            all_ascii(self@.text()),
    {
        match self {
            Operand::Literal(literal) => literal.write_text(out),
            Operand::Register(register) => register.write_text(out),
        }
    }

    /// The value as it is written.
    pub fn to_string(&self) -> (r: String)
        requires
            self@.wf(),
        ensures
            r@ == chars_of(self@.text()),
    {
        let mut out: Vec<u8> = Vec::new();
        self.write_text(&mut out);
        assert(out@ =~= self@.text());
        string_from_ascii(out)
    }

    /// Reads the operand that stands at `at` in a text, and where it ends.
    pub fn parse(input: &[u8], at: usize) -> (r: Option<(Operand, usize)>)
        requires
            at <= input@.len(),
        ensures
            match r {
                Some((operand, end)) => parse_operand(input@, at as int) == Some(
                    (operand@, end as int),
                ) && at < end <= input@.len(),
                None => parse_operand(input@, at as int) is None,
            },
    {
        match Literal::parse(input, at) {
            Some((literal, end)) => Some((Operand::Literal(literal), end)),
            None => match Register::parse(input, at) {
                Some((register, end)) => Some((Operand::Register(register), end)),
                None => None,
            },
        }
    }

    /// Reads the operand that the text is. Nothing may follow it.
    pub fn from_str(text: &str) -> (r: Option<Operand>)
        ensures
            match r {
                Some(operand) => parse_operand(text.spec_bytes(), 0) == Some(
                    (operand@, text.spec_bytes().len() as int),
                ),
                None => parse_operand(text.spec_bytes(), 0) matches Some((_, end)) ==> end
                    != text.spec_bytes().len(),
            },
    {
        let input: &[u8] = text.as_bytes();
        match Operand::parse(input, 0) {
            Some((operand, end)) => if end == input.len() {
                Some(operand)
            } else {
                None
            },
            None => None,
        }
    }

    /// Appends the operand in bytes.
    pub fn write_le(&self, out: &mut Vec<u8>)
        ensures
            final(out)@ == old(out)@ + self@.encoding(),
    {
        let ghost before = out@;
        match self {
            Operand::Literal(literal) => {
                out.push(0);
                literal.write_le(out);
            },
            Operand::Register(register) => {
                out.push(1);
                register.write_le(out);
            },
        }
        assert(out@ =~= before + self@.encoding());
    }

    /// Reads the operand that the bytes from `at` hold, and where it ends.
    pub fn read_le(input: &[u8], at: usize) -> (r: Result<(Operand, usize), CodecError>)
        ensures
            match r {
                Ok((operand, end)) => decode_operand(input@, at as int) == Ok::<
                    (OperandView, int),
                    CodecError,
                >((operand@, end as int)) && at < end <= input@.len(),
                Err(error) => decode_operand(input@, at as int) == Err::<
                    (OperandView, int),
                    CodecError,
                >(error),
            },
    {
        if at >= input.len() {
            return Err(CodecError::UnexpectedEnd);
        }
        let variant: u8 = input[at];
        if variant == 0 {
            match Literal::read_le(input, at + 1) {
                Ok((literal, end)) => Ok((Operand::Literal(literal), end)),
                Err(error) => Err(error),
            }
        } else if variant == 1 {
            match Register::read_le(input, at + 1) {
                Ok((register, end)) => Ok((Operand::Register(register), end)),
                Err(error) => Err(error),
            }
        } else {
            Err(CodecError::InvalidVariant)
        }
    }
}

/// An operand that was written is read back from the text, whatever stands
/// before it, as long as a blank or nothing follows it.
#[verifier::rlimit(40)]
pub proof fn lemma_operand_text_round_trip(before: Seq<u8>, operand: OperandView, after: Seq<u8>)
    requires
        operand.wf(),
        blank_or_end(after),
    ensures
        parse_operand(before + operand.text() + after, before.len() as int) == Some(
            (operand, (before.len() + operand.text().len()) as int),
        ),
        operand.text().len() >= 1,
        !is_space(operand.text()[0]),
{
    let bytes = before + operand.text() + after;
    let at = before.len() as int;
    match operand {
        OperandView::Literal(literal) => {
            lemma_literal_text_round_trip(before, literal, after);
        },
        OperandView::Register(register) => {
            reveal_strlit("aleo1");
            reveal_strlit("true");
            reveal_strlit("false");
            lemma_register_text_round_trip(before, register, after);
            assert(bytes[at] == register.text()[0]);
            lemma_tag_mismatch(bytes, at, ascii("aleo1"@), 0);
            lemma_tag_mismatch(bytes, at, ascii("true"@), 0);
            lemma_tag_mismatch(bytes, at, ascii("false"@), 0);
            assert(parse_address(bytes, at) is None);
            assert(parse_boolean(bytes, at) is None);
            assert(parse_integer(bytes, at) is None);
        },
    }
}

/// An operand that was written is read back, whatever stands before and
/// after it.
#[verifier::rlimit(40)]
pub proof fn lemma_operand_round_trip(before: Seq<u8>, operand: OperandView, after: Seq<u8>)
    requires
        operand.wf(),
    ensures
        decode_operand(before + operand.encoding() + after, before.len() as int) == Ok::<
            (OperandView, int),
            CodecError,
        >((operand, (before.len() + operand.encoding().len()) as int)),
{
    let bytes = before + operand.encoding() + after;
    let at = before.len() as int;
    match operand {
        OperandView::Literal(literal) => {
            lemma_regroup(before, seq![0u8], literal.encoding(), after);
            assert(bytes[at] == 0);
            lemma_literal_round_trip(before + seq![0u8], literal, after);
        },
        OperandView::Register(register) => {
            lemma_regroup(before, seq![1u8], register.encoding(), after);
            assert(bytes[at] == 1);
            lemma_register_round_trip(before + seq![1u8], register, after);
        },
    }
}

} // verus!

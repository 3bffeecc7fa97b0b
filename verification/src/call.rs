//! The `call` instruction: calls a function or a closure with operands and
//! writes what it returns to the destination registers.

use crate::codec::{lemma_regroup, CodecError};
use crate::identifier::{
    decode_identifier,
    identifier_encoding,
    lemma_identifier_round_trip,
    lemma_identifier_text_round_trip,
    parse_identifier,
    valid_identifier,
    Identifier,
};
use crate::locator::{
    decode_locator,
    lemma_locator_round_trip,
    lemma_locator_text_round_trip,
    parse_locator,
    parse_program_id,
    Locator,
    LocatorView,
};
use crate::opcode::Opcode;
use crate::operand::{
    decode_operand,
    lemma_operand_round_trip,
    lemma_operand_text_round_trip,
    operands_view,
    parse_operand,
    registers_view,
    Operand,
    OperandView,
};
use crate::register::{
    decode_register,
    lemma_register_round_trip,
    lemma_register_text_round_trip,
    parse_register,
    Register,
    RegisterView,
};
use crate::text::{
    all_ascii,
    ascii,
    blank_or_end,
    chars_of,
    is_space,
    lemma_spaces_end_one,
    lemma_tag_mismatch,
    push_str,
    skip_spaces,
    spaces_end,
    starts_with,
    string_from_ascii,
    tag_at,
};
use vstd::prelude::*;
use vstd::string::{StringExecFns, StringSliceAdditionalSpecFns};

verus! {

/// The most operands, and the most destinations, that an instruction can
/// have.
pub const MAX_OPERANDS: usize = 8;

/// What a call operator says.
pub enum CallOperatorView {
    Locator(LocatorView),
    Resource(Seq<u8>),
}

impl CallOperatorView {
    /// Whether the parts are well formed.
    pub open spec fn wf(self) -> bool {
        match self {
            CallOperatorView::Locator(locator) => locator.wf(),
            CallOperatorView::Resource(resource) => valid_identifier(resource),
        }
    }

    /// The operator as it is written.
    pub open spec fn text(self) -> Seq<u8> {
        match self {
            CallOperatorView::Locator(locator) => locator.text(),
            CallOperatorView::Resource(resource) => resource,
        }
    }

    /// The operator in bytes: a byte that is 0 for a locator and 1 for a
    /// resource, then the locator or the identifier.
    pub open spec fn encoding(self) -> Seq<u8> {
        match self {
            CallOperatorView::Locator(locator) => seq![0u8] + locator.encoding(),
            CallOperatorView::Resource(resource) => seq![1u8] + identifier_encoding(resource),
        }
    }
}

/// Why a text could not be read as a call.
#[derive(Clone, Copy, Debug, PartialEq, Eq, Structural)]
pub enum ParseError {
    /// The text does not start with the opcode.
    ExpectedOpcode,
    /// No operator follows the opcode.
    ExpectedOperator,
    /// There are more operands than an instruction can have.
    TooManyOperands,
    /// There are more destinations than an instruction can have.
    TooManyDestinations,
    /// Something follows the call.
    TrailingCharacters,
}

impl ParseError {
    /// The message of the error.
    pub open spec fn message_spec(self) -> Seq<char> {
        match self {
            ParseError::ExpectedOpcode => "Failed to parse 'call' opcode: expected 'call'"@,
            ParseError::ExpectedOperator => "Failed to parse 'call' opcode: expected an operator"@,
            ParseError::TooManyOperands => "Failed to parse 'call' opcode: too many operands"@,
            ParseError::TooManyDestinations =>
                "Failed to parse 'call' opcode: too many destinations"@,
            ParseError::TrailingCharacters => "Failed to parse string. Found invalid character"@,
        }
    }

    /// The message of the error.
    pub fn message(self) -> (r: String)
        ensures
            r@ == self.message_spec(),
    {
        match self {
            ParseError::ExpectedOpcode => String::from_str(
                "Failed to parse 'call' opcode: expected 'call'",
            ),
            ParseError::ExpectedOperator => String::from_str(
                "Failed to parse 'call' opcode: expected an operator",
            ),
            ParseError::TooManyOperands => String::from_str(
                "Failed to parse 'call' opcode: too many operands",
            ),
            ParseError::TooManyDestinations => String::from_str(
                "Failed to parse 'call' opcode: too many destinations",
            ),
            ParseError::TrailingCharacters => String::from_str(
                "Failed to parse string. Found invalid character",
            ),
        }
    }
}

/// The operator that stands at `at` in a text, and where it ends: a
/// locator, or else an identifier.
pub open spec fn parse_call_operator(bytes: Seq<u8>, at: int) -> Option<(CallOperatorView, int)> {
    match parse_locator(bytes, at) {
        Some((locator, end)) => Some((CallOperatorView::Locator(locator), end)),
        None => match parse_identifier(bytes, at) {
            Some((resource, end)) => Some((CallOperatorView::Resource(resource), end)),
            None => None,
        },
    }
}

/// The operator that the bytes from `at` hold, and where it ends.
pub open spec fn decode_call_operator(bytes: Seq<u8>, at: int) -> Result<
    (CallOperatorView, int),
    CodecError,
> {
    if at < 0 || at >= bytes.len() {
        Err(CodecError::UnexpectedEnd)
    } else if bytes[at] == 0 {
        match decode_locator(bytes, at + 1) {
            Err(error) => Err(error),
            Ok((locator, end)) => Ok((CallOperatorView::Locator(locator), end)),
        }
    } else if bytes[at] == 1 {
        match decode_identifier(bytes, at + 1) {
            Err(error) => Err(error),
            Ok((resource, end)) => Ok((CallOperatorView::Resource(resource), end)),
        }
    } else {
        Err(CodecError::InvalidVariant)
    }
}

/// The operator references a function name or closure name.
#[derive(Clone, Debug, PartialEq, Eq, Hash)]
pub enum CallOperator {
    /// The reference to a non-local function or closure.
    Locator(Locator),
    /// The reference to a local function or closure.
    Resource(Identifier),
}

impl View for CallOperator {
    type V = CallOperatorView;

    open spec fn view(&self) -> CallOperatorView {
        match self {
            CallOperator::Locator(locator) => CallOperatorView::Locator(locator@),
            CallOperator::Resource(resource) => CallOperatorView::Resource(resource@),
        }
    }
}

impl CallOperator {
    /// An operator is always well formed: it is made of identifiers.
    pub(crate) fn well_formed(&self)
        ensures
            self@.wf(),
    {
        match self {
            CallOperator::Locator(locator) => {
                let _ = locator.resource();
            },
            CallOperator::Resource(resource) => {
                let _ = resource.name();
            },
        }
    }

    /// Whether the two are the same.
    pub fn equals(&self, other: &CallOperator) -> (r: bool)
        ensures
            r == (self@ == other@),
    {
        match (self, other) {
            (CallOperator::Locator(a), CallOperator::Locator(b)) => a.equals(b),
            (CallOperator::Resource(a), CallOperator::Resource(b)) => a.equals(b),
            _ => false,
        }
    }

    /// A copy.
    pub fn duplicate(&self) -> (r: CallOperator)
        ensures
            r@ == self@,
    {
        match self {
            CallOperator::Locator(locator) => CallOperator::Locator(locator.duplicate()),
            CallOperator::Resource(resource) => CallOperator::Resource(resource.duplicate()),
        }
    }

    /// Appends the operator as it is written.
    pub fn write_text(&self, out: &mut Vec<u8>)
        ensures
            final(out)@ == old(out)@ + self@.text(),
            all_ascii(self@.text()),
    {
        match self {
            CallOperator::Locator(locator) => locator.write_text(out),
            CallOperator::Resource(resource) => {
                let _ = resource.name();
                resource.write_text(out);
            },
        }
    }

    /// Prints the operator to a string.
    pub fn to_string(&self) -> (r: String)
        ensures
            r@ == chars_of(self@.text()),
    {
        let mut out: Vec<u8> = Vec::new();
        self.write_text(&mut out);
        assert(out@ =~= self@.text());
        string_from_ascii(out)
    }

    /// Parses a string into an operator: the operator that stands at `at`
    /// in the text, and where it ends.
    pub fn parse(input: &[u8], at: usize) -> (r: Option<(CallOperator, usize)>)
        requires
            at <= input@.len(),
        ensures
            match r {
                Some((operator, end)) => parse_call_operator(input@, at as int) == Some(
                    (operator@, end as int),
                ) && at < end <= input@.len(),
                None => parse_call_operator(input@, at as int) is None,
            },
    {
        match Locator::parse(input, at) {
            Some((locator, end)) => Some((CallOperator::Locator(locator), end)),
            None => match Identifier::parse(input, at) {
                Some((resource, end)) => Some((CallOperator::Resource(resource), end)),
                None => None,
            },
        }
    }

    /// Parses a string into an operator. Nothing may follow the operator.
    pub fn from_str(text: &str) -> (r: Result<CallOperator, ParseError>)
        ensures
            match r {
                Ok(operator) => parse_call_operator(text.spec_bytes(), 0) == Some(
                    (operator@, text.spec_bytes().len() as int),
                ),
                Err(error) => if parse_call_operator(text.spec_bytes(), 0) is None {
                    error == ParseError::ExpectedOperator
                } else {
                    error == ParseError::TrailingCharacters && parse_call_operator(
                        text.spec_bytes(),
                        0,
                    ).unwrap().1 != text.spec_bytes().len()
                },
            },
    {
        let input: &[u8] = text.as_bytes();
        match CallOperator::parse(input, 0) {
            Some((operator, end)) => {
                // Ensure the remainder is empty.
                if end == input.len() {
                    Ok(operator)
                } else {
                    Err(ParseError::TrailingCharacters)
                }
            },
            None => Err(ParseError::ExpectedOperator),
        }
    }

    /// Writes the operation to a buffer.
    pub fn write_le(&self, out: &mut Vec<u8>)
        ensures
            final(out)@ == old(out)@ + self@.encoding(),
    {
        let ghost before = out@;
        match self {
            CallOperator::Locator(locator) => {
                // Write the variant.
                out.push(0);
                // Write the locator.
                locator.write_le(out);
            },
            CallOperator::Resource(resource) => {
                // Write the variant.
                out.push(1);
                // Write the resource.
                resource.write_le(out);
            },
        }
        assert(out@ =~= before + self@.encoding());
    }

    /// Reads the operation from a buffer.
    pub fn read_le(input: &[u8], at: usize) -> (r: Result<(CallOperator, usize), CodecError>)
        ensures
            match r {
                Ok((operator, end)) => decode_call_operator(input@, at as int) == Ok::<
                    (CallOperatorView, int),
                    CodecError,
                >((operator@, end as int)) && at < end <= input@.len(),
                Err(error) => decode_call_operator(input@, at as int) == Err::<
                    (CallOperatorView, int),
                    CodecError,
                >(error),
            },
    {
        // Read the variant.
        if at >= input.len() {
            return Err(CodecError::UnexpectedEnd);
        }
        let variant: u8 = input[at];
        // Match the variant.
        if variant == 0 {
            match Locator::read_le(input, at + 1) {
                Ok((locator, end)) => Ok((CallOperator::Locator(locator), end)),
                Err(error) => Err(error),
            }
        } else if variant == 1 {
            match Identifier::read_le(input, at + 1) {
                Ok((resource, end)) => Ok((CallOperator::Resource(resource), end)),
                Err(error) => Err(error),
            }
        } else {
            Err(CodecError::InvalidVariant)
        }
    }
}

/// Operands in bytes, one after another.
pub open spec fn operands_encoding(operands: Seq<OperandView>) -> Seq<u8>
    decreases operands.len(),
{
    if operands.len() == 0 {
        Seq::<u8>::empty()
    } else {
        operands[0].encoding() + operands_encoding(operands.drop_first())
    }
}

/// Registers in bytes, one after another.
pub open spec fn registers_encoding(registers: Seq<RegisterView>) -> Seq<u8>
    decreases registers.len(),
{
    if registers.len() == 0 {
        Seq::<u8>::empty()
    } else {
        registers[0].encoding() + registers_encoding(registers.drop_first())
    }
}

/// The `count` operands that the bytes from `at` hold, and where they end.
pub open spec fn decode_operands(bytes: Seq<u8>, at: int, count: nat) -> Result<
    (Seq<OperandView>, int),
    CodecError,
>
    decreases count,
{
    if count == 0 {
        Ok((Seq::<OperandView>::empty(), at))
    } else {
        match decode_operand(bytes, at) {
            Err(error) => Err(error),
            Ok((operand, next)) => match decode_operands(bytes, next, (count - 1) as nat) {
                Err(error) => Err(error),
                Ok((operands, end)) => Ok((seq![operand] + operands, end)),
            },
        }
    }
}

/// The `count` registers that the bytes from `at` hold, and where they end.
pub open spec fn decode_registers(bytes: Seq<u8>, at: int, count: nat) -> Result<
    (Seq<RegisterView>, int),
    CodecError,
>
    decreases count,
{
    if count == 0 {
        Ok((Seq::<RegisterView>::empty(), at))
    } else {
        match decode_register(bytes, at) {
            Err(error) => Err(error),
            Ok((register, next)) => match decode_registers(bytes, next, (count - 1) as nat) {
                Err(error) => Err(error),
                Ok((registers, end)) => Ok((seq![register] + registers, end)),
            },
        }
    }
}

/// What was read so far, put before what is read from here on.
pub open spec fn operands_after(
    front: Seq<OperandView>,
    rest: Result<(Seq<OperandView>, int), CodecError>,
) -> Result<(Seq<OperandView>, int), CodecError> {
    match rest {
        Ok((operands, end)) => Ok((front + operands, end)),
        Err(error) => Err(error),
    }
}

/// What was read so far, put before what is read from here on.
pub open spec fn registers_after(
    front: Seq<RegisterView>,
    rest: Result<(Seq<RegisterView>, int), CodecError>,
) -> Result<(Seq<RegisterView>, int), CodecError> {
    match rest {
        Ok((registers, end)) => Ok((front + registers, end)),
        Err(error) => Err(error),
    }
}

/// Every operand is well formed.
pub open spec fn valid_operands(operands: Seq<OperandView>) -> bool {
    forall|i: int| 0 <= i < operands.len() ==> (#[trigger] operands[i]).wf()
}

/// Every register is well formed.
pub open spec fn valid_registers(registers: Seq<RegisterView>) -> bool {
    forall|i: int| 0 <= i < registers.len() ==> (#[trigger] registers[i]).wf()
}

/// Operands as they are written: a blank before each.
pub open spec fn operands_text(operands: Seq<OperandView>) -> Seq<u8>
    decreases operands.len(),
{
    if operands.len() == 0 {
        Seq::<u8>::empty()
    } else {
        seq![0x20u8] + operands[0].text() + operands_text(operands.drop_first())
    }
}

/// Registers as they are written: a blank before each.
pub open spec fn registers_text(registers: Seq<RegisterView>) -> Seq<u8>
    decreases registers.len(),
{
    if registers.len() == 0 {
        Seq::<u8>::empty()
    } else {
        seq![0x20u8] + registers[0].text() + registers_text(registers.drop_first())
    }
}

/// The operands that stand at `at` in a text, each behind blanks or none,
/// as many as there are, and where the last one ends.
pub open spec fn parse_operands(bytes: Seq<u8>, at: int) -> (Seq<OperandView>, int)
    decreases bytes.len() - at,
{
    match parse_operand(bytes, spaces_end(bytes, at)) {
        Some((operand, next)) => if at < next <= bytes.len() {
            (seq![operand] + parse_operands(bytes, next).0, parse_operands(bytes, next).1)
        } else {
            (Seq::<OperandView>::empty(), at)
        },
        None => (Seq::<OperandView>::empty(), at),
    }
}

/// The destination registers that stand at `at` in a text, each behind
/// blanks or none, as many as there are, and where the last one ends.
pub open spec fn parse_destinations(bytes: Seq<u8>, at: int) -> (Seq<RegisterView>, int)
    decreases bytes.len() - at,
{
    match parse_register(bytes, spaces_end(bytes, at)) {
        Some((register, next)) => if at < next <= bytes.len() {
            (seq![register] + parse_destinations(bytes, next).0, parse_destinations(bytes, next).1)
        } else {
            (Seq::<RegisterView>::empty(), at)
        },
        None => (Seq::<RegisterView>::empty(), at),
    }
}

/// What a call says.
pub struct CallView {
    pub operator: CallOperatorView,
    pub operands: Seq<OperandView>,
    pub destinations: Seq<RegisterView>,
}

impl CallView {
    /// The parts are well formed, and there are no more operands and no
    /// more destinations than an instruction can have.
    pub open spec fn wf(self) -> bool {
        &&& self.operator.wf()
        &&& self.operands.len() <= MAX_OPERANDS
        &&& self.destinations.len() <= MAX_OPERANDS
        &&& valid_operands(self.operands)
        &&& valid_registers(self.destinations)
    }

    /// The call as it is written: `call`, the operator, the operands, and
    /// where there are destinations `into` and the destinations, with one
    /// blank between them.
    pub open spec fn text(self) -> Seq<u8> {
        ascii("call "@) + self.operator.text() + operands_text(self.operands) + (
        if self.destinations.len() > 0 {
            ascii(" into"@) + registers_text(self.destinations)
        } else {
            Seq::<u8>::empty()
        })
    }

    /// The call in bytes: the operator, the number of operands in one byte,
    /// the operands, the number of destinations in one byte, the
    /// destinations.
    pub open spec fn encoding(self) -> Seq<u8> {
        self.operator.encoding() + seq![self.operands.len() as u8] + operands_encoding(
            self.operands,
        ) + seq![self.destinations.len() as u8] + registers_encoding(self.destinations)
    }
}

/// The call that stands at `at` in a text, and where it ends: `call`, an
/// operator, operands, and behind `into` destinations, with blanks or none
/// between them.
pub open spec fn parse_call(bytes: Seq<u8>, at: int) -> Result<(CallView, int), ParseError> {
    if !tag_at(bytes, at, ascii("call"@)) {
        Err(ParseError::ExpectedOpcode)
    } else {
        match parse_call_operator(bytes, spaces_end(bytes, at + 4)) {
            None => Err(ParseError::ExpectedOperator),
            Some((operator, named)) => {
                let (operands, read) = parse_operands(bytes, spaces_end(bytes, named));
                let into = spaces_end(bytes, read);
                if operands.len() > MAX_OPERANDS {
                    Err(ParseError::TooManyOperands)
                } else if !tag_at(bytes, into, ascii("into"@)) {
                    Ok(
                        (
                            CallView {
                                operator,
                                operands,
                                destinations: Seq::<RegisterView>::empty(),
                            },
                            into,
                        ),
                    )
                } else {
                    let (destinations, end) = parse_destinations(
                        bytes,
                        spaces_end(bytes, into + 4),
                    );
                    if destinations.len() > MAX_OPERANDS {
                        Err(ParseError::TooManyDestinations)
                    } else {
                        Ok((CallView { operator, operands, destinations }, end))
                    }
                }
            },
        }
    }
}

/// What closes a call as it is written: `into` and the destinations, where
/// there are any.
pub open spec fn closing_text(destinations: Seq<RegisterView>) -> Seq<u8> {
    if destinations.len() > 0 {
        ascii(" into"@) + registers_text(destinations)
    } else {
        Seq::<u8>::empty()
    }
}

/// The call that the bytes from `at` hold, and where it ends.
pub open spec fn decode_call(bytes: Seq<u8>, at: int) -> Result<(CallView, int), CodecError> {
    match decode_call_operator(bytes, at) {
        Err(error) => Err(error),
        Ok((operator, counted)) => if counted >= bytes.len() {
            Err(CodecError::UnexpectedEnd)
        } else if bytes[counted] > MAX_OPERANDS {
            Err(CodecError::TooManyOperands)
        } else {
            match decode_operands(bytes, counted + 1, bytes[counted] as nat) {
                Err(error) => Err(error),
                Ok((operands, next)) => if next >= bytes.len() {
                    Err(CodecError::UnexpectedEnd)
                } else if bytes[next] > MAX_OPERANDS {
                    Err(CodecError::TooManyDestinations)
                } else {
                    match decode_registers(bytes, next + 1, bytes[next] as nat) {
                        Err(error) => Err(error),
                        Ok((destinations, end)) => Ok(
                            (CallView { operator, operands, destinations }, end),
                        ),
                    }
                },
            }
        },
    }
}

/// Calls the operands into the declared type.
/// i.e. `call transfer r0.owner 0u64 r1.amount into r1 r2;`
#[derive(Clone, Debug, PartialEq, Eq, Hash)]
pub struct Call {
    /// The reference.
    operator: CallOperator,
    /// The operands.
    operands: Vec<Operand>,
    /// The destination registers.
    destinations: Vec<Register>,
}

impl View for Call {
    type V = CallView;

    closed spec fn view(&self) -> CallView {
        CallView {
            operator: self.operator@,
            operands: operands_view(self.operands@),
            destinations: registers_view(self.destinations@),
        }
    }
}

/// Whether every operand is well formed.
pub fn operands_valid(operands: &[Operand]) -> (r: bool)
    ensures
        r == valid_operands(operands_view(operands@)),
{
    let mut i: usize = 0;
    while i < operands.len()
        invariant
            i <= operands.len(),
            forall|j: int| 0 <= j < i ==> (#[trigger] operands_view(operands@)[j]).wf(),
        decreases operands.len() - i,
    {
        if !operands[i].is_valid() {
            assert(!operands_view(operands@)[i as int].wf());
            return false;
        }
        i = i + 1;
    }
    true
}

/// Whether every register is well formed.
pub fn registers_valid(registers: &[Register]) -> (r: bool)
    ensures
        r == valid_registers(registers_view(registers@)),
{
    let mut i: usize = 0;
    while i < registers.len()
        invariant
            i <= registers.len(),
            forall|j: int| 0 <= j < i ==> (#[trigger] registers_view(registers@)[j]).wf(),
        decreases registers.len() - i,
    {
        if !registers[i].is_valid() {
            assert(!registers_view(registers@)[i as int].wf());
            return false;
        }
        i = i + 1;
    }
    true
}

impl Call {
    /// The call of `operator` with the given operands and destinations.
    pub fn new(operator: CallOperator, operands: Vec<Operand>, destinations: Vec<Register>) -> (r:
        Call)
        ensures
            r@ == (CallView {
                operator: operator@,
                operands: operands_view(operands@),
                destinations: registers_view(destinations@),
            }),
    {
        Call { operator, operands, destinations }
    }

    /// Returns the opcode.
    #[inline]
    pub fn opcode() -> (r: Opcode)
        ensures
            r == Opcode::Call,
    {
        Opcode::Call
    }

    /// Return the operator.
    #[inline]
    pub fn operator(&self) -> (r: &CallOperator)
        ensures
            r@ == self@.operator,
    {
        &self.operator
    }

    /// Returns the operands in the operation.
    #[inline]
    pub fn operands(&self) -> (r: &[Operand])
        ensures
            operands_view(r@) == self@.operands,
    {
        self.operands.as_slice()
    }

    /// Returns the destination registers.
    #[inline]
    pub fn destinations(&self) -> (r: Vec<Register>)
        ensures
            registers_view(r@) == self@.destinations,
    {
        let mut copy: Vec<Register> = Vec::new();
        let mut i: usize = 0;
        while i < self.destinations.len()
            invariant
                i <= self.destinations.len(),
                copy@.len() == i,
                forall|j: int| 0 <= j < i ==> (#[trigger] copy@[j])@ == self.destinations@[j]@,
            decreases self.destinations.len() - i,
        {
            copy.push(self.destinations[i].duplicate());
            i = i + 1;
        }
        assert(registers_view(copy@) =~= registers_view(self.destinations@));
        copy
    }

    /// Whether the call is well formed.
    pub fn is_valid(&self) -> (r: bool)
        ensures
            r == self@.wf(),
    {
        self.operator.well_formed();
        self.operands.len() <= MAX_OPERANDS && self.destinations.len() <= MAX_OPERANDS
            && operands_valid(self.operands.as_slice()) && registers_valid(
            self.destinations.as_slice(),
        )
    }

    /// Prints the operation: appends the call as it is written.
    pub fn write_text(&self, out: &mut Vec<u8>)
        requires
            self@.wf(),
        ensures
            final(out)@ == old(out)@ + self@.text(),
            all_ascii(self@.text()),
    {
        proof {
            reveal_strlit("call ");
            reveal_strlit(" into");
        }
        let ghost before = out@;
        let ghost operands = operands_view(self.operands@);
        let ghost destinations = registers_view(self.destinations@);
        // Print the operation.
        push_str(out, "call ");
        self.operator.write_text(out);
        let ghost head = out@;
        let mut i: usize = 0;
        assert(operands.skip(0) =~= operands);
        while i < self.operands.len()
            invariant
                i <= self.operands.len(),
                operands == operands_view(self.operands@),
                valid_operands(operands),
                out@ + operands_text(operands.skip(i as int)) == head + operands_text(operands),
                all_ascii(out@.subrange(before.len() as int, out@.len() as int)),
                before.len() <= out@.len(),
            decreases self.operands.len() - i,
        {
            let ghost so_far = out@;
            assert(operands[i as int].wf());
            assert(operands[i as int] == self.operands@[i as int]@);
            out.push(0x20);
            self.operands[i].write_text(out);
            proof {
                assert(operands.skip(i as int).drop_first() =~= operands.skip(i + 1));
                assert(operands.skip(i as int)[0] == self.operands@[i as int]@);
                assert(out@ + operands_text(operands.skip(i + 1)) =~= so_far + operands_text(
                    operands.skip(i as int),
                ));
                let text = self.operands@[i as int]@.text();
                assert(out@ =~= so_far + seq![0x20u8] + text);
                assert forall|k: int|
                    0 <= k < out@.len() - before.len() implies #[trigger] out@.subrange(
                    before.len() as int,
                    out@.len() as int,
                )[k] < 128 by {
                    let j = k + before.len();
                    if j < so_far.len() {
                        assert(out@[j] == so_far.subrange(
                            before.len() as int,
                            so_far.len() as int,
                        )[k]);
                    } else if j > so_far.len() {
                        assert(out@[j] == text[j - so_far.len() - 1]);
                    }
                }
            }
            i = i + 1;
        }
        proof {
            assert(operands.skip(self.operands.len() as int) =~= Seq::<OperandView>::empty());
            assert(out@ =~= head + operands_text(operands));
        }
        if self.destinations.len() > 0 {
            let ghost middle = out@;
            push_str(out, " into");
            let ghost started = out@;
            proof {
                assert forall|k: int|
                    0 <= k < out@.len() - before.len() implies #[trigger] out@.subrange(
                    before.len() as int,
                    out@.len() as int,
                )[k] < 128 by {
                    let j = k + before.len();
                    if j < middle.len() {
                        assert(out@[j] == middle.subrange(
                            before.len() as int,
                            middle.len() as int,
                        )[k]);
                    } else {
                        assert(out@[j] == ascii(" into"@)[j - middle.len()]);
                    }
                }
            }
            let mut j: usize = 0;
            assert(destinations.skip(0) =~= destinations);
            while j < self.destinations.len()
                invariant
                    j <= self.destinations.len(),
                    destinations == registers_view(self.destinations@),
                    out@ + registers_text(destinations.skip(j as int)) == started
                        + registers_text(destinations),
                    all_ascii(out@.subrange(before.len() as int, out@.len() as int)),
                    before.len() <= out@.len(),
                decreases self.destinations.len() - j,
            {
                let ghost so_far = out@;
                out.push(0x20);
                self.destinations[j].write_text(out);
                proof {
                    assert(destinations.skip(j as int).drop_first() =~= destinations.skip(j + 1));
                    assert(destinations.skip(j as int)[0] == self.destinations@[j as int]@);
                    assert(out@ + registers_text(destinations.skip(j + 1)) =~= so_far
                        + registers_text(destinations.skip(j as int)));
                    let text = self.destinations@[j as int]@.text();
                    assert(out@ =~= so_far + seq![0x20u8] + text);
                    assert forall|k: int|
                        0 <= k < out@.len() - before.len() implies #[trigger] out@.subrange(
                        before.len() as int,
                        out@.len() as int,
                    )[k] < 128 by {
                        let p = k + before.len();
                        if p < so_far.len() {
                            assert(out@[p] == so_far.subrange(
                                before.len() as int,
                                so_far.len() as int,
                            )[k]);
                        } else if p > so_far.len() {
                            assert(out@[p] == text[p - so_far.len() - 1]);
                        }
                    }
                }
                j = j + 1;
            }
            proof {
                assert(destinations.skip(self.destinations.len() as int) =~= Seq::<
                    RegisterView,
                >::empty());
                assert(out@ =~= started + registers_text(destinations));
            }
        }
        proof {
            assert(out@ =~= before + self@.text());
            assert(out@.subrange(before.len() as int, out@.len() as int) =~= self@.text());
        }
    }

    /// Prints the operation to a string.
    pub fn to_string(&self) -> (r: String)
        requires
            self@.wf(),
        ensures
            r@ == chars_of(self@.text()),
    {
        let mut out: Vec<u8> = Vec::new();
        self.write_text(&mut out);
        assert(out@ =~= self@.text());
        string_from_ascii(out)
    }

    /// Parses a string into an operation: the call that stands at `at` in
    /// the text, and where it ends.
    pub fn parse(input: &[u8], at: usize) -> (r: Result<(Call, usize), ParseError>)
        requires
            at <= input@.len(),
        ensures
            match r {
                Ok((call, end)) => parse_call(input@, at as int) == Ok::<
                    (CallView, int),
                    ParseError,
                >((call@, end as int)) && at < end <= input@.len(),
                Err(error) => parse_call(input@, at as int) == Err::<(CallView, int), ParseError>(
                    error,
                ),
            },
    {
        proof {
            reveal_strlit("call");
            reveal_strlit("into");
        }
        let length: usize = input.len();
        // Parse the opcode from the string.
        if !starts_with(input, at, "call") {
            return Err(ParseError::ExpectedOpcode);
        }
        // Parse the whitespace from the string.
        let opened: usize = skip_spaces(input, at + 4);
        // Parse the name of the call from the string.
        let (operator, named) = match CallOperator::parse(input, opened) {
            Some(read) => read,
            None => {
                return Err(ParseError::ExpectedOperator);
            },
        };
        // Parse the whitespace from the string.
        let spaced: usize = skip_spaces(input, named);
        // Parse the operands from the string.
        let mut operands: Vec<Operand> = Vec::new();
        let mut position: usize = spaced;
        let ghost all_operands = parse_operands(input@, spaced as int);
        assert(operands_view(operands@) + all_operands.0 =~= all_operands.0);
        loop
            invariant
                spaced <= position <= length,
                length == input@.len(),
                all_operands == parse_operands(input@, spaced as int),
                all_operands.0 == operands_view(operands@) + parse_operands(
                    input@,
                    position as int,
                ).0,
                all_operands.1 == parse_operands(input@, position as int).1,
            ensures
                spaced <= position <= length,
                all_operands.0 == operands_view(operands@),
                all_operands.1 == position,
            decreases length - position,
        {
            // Parse the whitespace from the string.
            let start: usize = skip_spaces(input, position);
            // Parse the operand from the string.
            match Operand::parse(input, start) {
                None => {
                    assert(operands_view(operands@) + Seq::<OperandView>::empty()
                        =~= operands_view(operands@));
                    break;
                },
                Some((operand, next)) => {
                    proof {
                        let so_far = operands_view(operands@);
                        assert(operands_view(operands@.push(operand)) =~= so_far.push(operand@));
                        assert(so_far + (seq![operand@] + parse_operands(input@, next as int).0)
                            =~= so_far.push(operand@) + parse_operands(input@, next as int).0);
                    }
                    operands.push(operand);
                    position = next;
                },
            }
        }
        // Ensure the number of operands is within the bounds.
        if operands.len() > MAX_OPERANDS {
            return Err(ParseError::TooManyOperands);
        }
        // Parse the whitespace from the string.
        let into: usize = skip_spaces(input, position);
        // Optionally parse the "into" from the string.
        if !starts_with(input, into, "into") {
            // If the "into" was not parsed, return the string and an empty vector of destinations.
            let destinations: Vec<Register> = Vec::new();
            assert(registers_view(destinations@) =~= Seq::<RegisterView>::empty());
            return Ok((Call { operator, operands, destinations }, into));
        }
        // Parse the whitespace from the string.
        let listed: usize = skip_spaces(input, into + 4);
        // Parse the destinations from the string.
        let mut destinations: Vec<Register> = Vec::new();
        let mut place: usize = listed;
        let ghost all_destinations = parse_destinations(input@, listed as int);
        assert(registers_view(destinations@) + all_destinations.0 =~= all_destinations.0);
        loop
            invariant
                listed <= place <= length,
                length == input@.len(),
                all_destinations == parse_destinations(input@, listed as int),
                all_destinations.0 == registers_view(destinations@) + parse_destinations(
                    input@,
                    place as int,
                ).0,
                all_destinations.1 == parse_destinations(input@, place as int).1,
            ensures
                listed <= place <= length,
                all_destinations.0 == registers_view(destinations@),
                all_destinations.1 == place,
            decreases length - place,
        {
            // Parse the whitespace from the string.
            let start: usize = skip_spaces(input, place);
            // Parse the destination from the string.
            match Register::parse(input, start) {
                None => {
                    assert(registers_view(destinations@) + Seq::<RegisterView>::empty()
                        =~= registers_view(destinations@));
                    break;
                },
                Some((register, next)) => {
                    proof {
                        let so_far = registers_view(destinations@);
                        assert(registers_view(destinations@.push(register)) =~= so_far.push(
                            register@,
                        ));
                        assert(so_far + (seq![register@] + parse_destinations(
                            input@,
                            next as int,
                        ).0) =~= so_far.push(register@) + parse_destinations(
                            input@,
                            next as int,
                        ).0);
                    }
                    destinations.push(register);
                    place = next;
                },
            }
        }
        // Ensure the number of destinations is within the bounds.
        if destinations.len() > MAX_OPERANDS {
            return Err(ParseError::TooManyDestinations);
        }
        Ok((Call { operator, operands, destinations }, place))
    }

    /// Parses a string into an operation. Nothing may follow the call.
    pub fn from_str(text: &str) -> (r: Result<Call, ParseError>)
        ensures
            match r {
                Ok(call) => parse_call(text.spec_bytes(), 0) == Ok::<(CallView, int), ParseError>(
                    (call@, text.spec_bytes().len() as int),
                ),
                Err(error) => match parse_call(text.spec_bytes(), 0) {
                    Err(inner) => error == inner,
                    Ok((_, end)) => error == ParseError::TrailingCharacters && end
                        != text.spec_bytes().len(),
                },
            },
    {
        let input: &[u8] = text.as_bytes();
        match Call::parse(input, 0) {
            Ok((call, end)) => {
                // Ensure the remainder is empty.
                if end == input.len() {
                    Ok(call)
                } else {
                    Err(ParseError::TrailingCharacters)
                }
            },
            Err(error) => Err(error),
        }
    }

    /// Writes the operation to a buffer. A call with more operands or more
    /// destinations than an instruction can have is not written.
    pub fn write_le(&self, out: &mut Vec<u8>) -> (r: Result<(), CodecError>)
        ensures
            self@.operands.len() > MAX_OPERANDS ==> r == Err::<(), CodecError>(
                CodecError::TooManyOperands,
            ) && final(out)@ == old(out)@,
            self@.operands.len() <= MAX_OPERANDS && self@.destinations.len() > MAX_OPERANDS ==> r
                == Err::<(), CodecError>(CodecError::TooManyDestinations) && final(out)@ == old(
                out,
            )@,
            self@.operands.len() <= MAX_OPERANDS && self@.destinations.len() <= MAX_OPERANDS ==> r
                is Ok && final(out)@ == old(out)@ + self@.encoding(),
    {
        // Ensure the number of operands is within the bounds.
        if self.operands.len() > MAX_OPERANDS {
            return Err(CodecError::TooManyOperands);
        }
        // Ensure the number of destinations is within the bounds.
        if self.destinations.len() > MAX_OPERANDS {
            return Err(CodecError::TooManyDestinations);
        }
        let ghost before = out@;
        let ghost operands = operands_view(self.operands@);
        let ghost destinations = registers_view(self.destinations@);
        // Write the name of the call.
        self.operator.write_le(out);
        // Write the number of operands.
        out.push(self.operands.len() as u8);
        // Write the operands.
        let ghost head = out@;
        let mut i: usize = 0;
        assert(operands.skip(0) =~= operands);
        while i < self.operands.len()
            invariant
                i <= self.operands.len(),
                operands == operands_view(self.operands@),
                out@ + operands_encoding(operands.skip(i as int)) == head + operands_encoding(
                    operands,
                ),
            decreases self.operands.len() - i,
        {
            let ghost so_far = out@;
            self.operands[i].write_le(out);
            proof {
                assert(operands.skip(i as int).drop_first() =~= operands.skip(i + 1));
                assert(operands.skip(i as int)[0] == self.operands@[i as int]@);
                assert(out@ + operands_encoding(operands.skip(i + 1)) =~= so_far
                    + operands_encoding(operands.skip(i as int)));
            }
            i = i + 1;
        }
        proof {
            assert(operands.skip(self.operands.len() as int) =~= Seq::<OperandView>::empty());
            assert(out@ =~= head + operands_encoding(operands));
        }
        // Write the number of destination register.
        out.push(self.destinations.len() as u8);
        // Write the destination registers.
        let ghost middle = out@;
        let mut j: usize = 0;
        assert(destinations.skip(0) =~= destinations);
        while j < self.destinations.len()
            invariant
                j <= self.destinations.len(),
                destinations == registers_view(self.destinations@),
                out@ + registers_encoding(destinations.skip(j as int)) == middle
                    + registers_encoding(destinations),
            decreases self.destinations.len() - j,
        {
            let ghost so_far = out@;
            self.destinations[j].write_le(out);
            proof {
                assert(destinations.skip(j as int).drop_first() =~= destinations.skip(j + 1));
                assert(destinations.skip(j as int)[0] == self.destinations@[j as int]@);
                assert(out@ + registers_encoding(destinations.skip(j + 1)) =~= so_far
                    + registers_encoding(destinations.skip(j as int)));
            }
            j = j + 1;
        }
        proof {
            assert(destinations.skip(self.destinations.len() as int) =~= Seq::<
                RegisterView,
            >::empty());
            assert(out@ =~= before + self@.encoding());
        }
        Ok(())
    }

    /// The call in bytes.
    pub fn to_bytes_le(&self) -> (r: Result<Vec<u8>, CodecError>)
        ensures
            self@.operands.len() > MAX_OPERANDS ==> r == Err::<Vec<u8>, CodecError>(
                CodecError::TooManyOperands,
            ),
            self@.operands.len() <= MAX_OPERANDS && self@.destinations.len() > MAX_OPERANDS ==> r
                == Err::<Vec<u8>, CodecError>(CodecError::TooManyDestinations),
            self@.operands.len() <= MAX_OPERANDS && self@.destinations.len() <= MAX_OPERANDS ==> (
            r matches Ok(bytes) && bytes@ == self@.encoding()),
    {
        let mut out: Vec<u8> = Vec::new();
        match self.write_le(&mut out) {
            Ok(()) => {
                assert(out@ =~= self@.encoding());
                Ok(out)
            },
            Err(error) => Err(error),
        }
    }

    /// Reads the operation from a buffer: the call that the bytes from
    /// `at` hold, and where it ends.
    pub fn read_le(input: &[u8], at: usize) -> (r: Result<(Call, usize), CodecError>)
        ensures
            match r {
                Ok((call, end)) => decode_call(input@, at as int) == Ok::<
                    (CallView, int),
                    CodecError,
                >((call@, end as int)) && at < end <= input@.len(),
                Err(error) => decode_call(input@, at as int) == Err::<(CallView, int), CodecError>(
                    error,
                ),
            },
    {
        // Read the operator of the call.
        let (operator, counted) = match CallOperator::read_le(input, at) {
            Ok(read) => read,
            Err(error) => {
                return Err(error);
            },
        };
        // Read the number of operands.
        if counted >= input.len() {
            return Err(CodecError::UnexpectedEnd);
        }
        let num_operands: usize = input[counted] as usize;
        // Ensure the number of operands is within the bounds.
        if num_operands > MAX_OPERANDS {
            return Err(CodecError::TooManyOperands);
        }
        // Initialize the vector for the operands.
        let mut operands: Vec<Operand> = Vec::new();
        let mut position: usize = counted + 1;
        let ghost all_operands = decode_operands(input@, counted + 1, num_operands as nat);
        assert(operands_after(operands_view(operands@), all_operands) == all_operands) by {
            assert(operands_view(operands@) =~= Seq::<OperandView>::empty());
            if all_operands is Ok {
                assert(Seq::<OperandView>::empty() + all_operands.unwrap().0
                    =~= all_operands.unwrap().0);
            }
        }
        // Read the operands.
        let mut i: usize = 0;
        while i < num_operands
            invariant
                i <= num_operands,
                operands@.len() == i,
                at < counted < position <= input@.len(),
                decode_call_operator(input@, at as int) == Ok::<
                    (CallOperatorView, int),
                    CodecError,
                >((operator@, counted as int)),
                num_operands == input@[counted as int],
                num_operands <= MAX_OPERANDS,
                all_operands == decode_operands(input@, counted + 1, num_operands as nat),
                all_operands == operands_after(
                    operands_view(operands@),
                    decode_operands(input@, position as int, (num_operands - i) as nat),
                ),
            decreases num_operands - i,
        {
            let ghost so_far = operands_view(operands@);
            match Operand::read_le(input, position) {
                Err(error) => {
                    assert(decode_operands(input@, position as int, (num_operands - i) as nat)
                        == Err::<(Seq<OperandView>, int), CodecError>(error));
                    return Err(error);
                },
                Ok((operand, next)) => {
                    proof {
                        let rest = decode_operands(
                            input@,
                            next as int,
                            (num_operands - i - 1) as nat,
                        );
                        assert(operands_view(operands@.push(operand)) =~= so_far.push(operand@));
                        if rest is Ok {
                            assert(so_far + (seq![operand@] + rest.unwrap().0) =~= so_far.push(
                                operand@,
                            ) + rest.unwrap().0);
                        }
                    }
                    operands.push(operand);
                    position = next;
                },
            }
            i = i + 1;
        }
        proof {
            assert(operands_view(operands@) + Seq::<OperandView>::empty() =~= operands_view(
                operands@,
            ));
        }
        // Read the number of destination registers.
        if position >= input.len() {
            return Err(CodecError::UnexpectedEnd);
        }
        let num_destinations: usize = input[position] as usize;
        // Ensure the number of destinations is within the bounds.
        if num_destinations > MAX_OPERANDS {
            return Err(CodecError::TooManyDestinations);
        }
        // Initialize the vector for the destinations.
        let mut destinations: Vec<Register> = Vec::new();
        let marked: usize = position;
        let mut place: usize = position + 1;
        let ghost all_destinations = decode_registers(
            input@,
            marked + 1,
            num_destinations as nat,
        );
        assert(registers_after(registers_view(destinations@), all_destinations)
            == all_destinations) by {
            assert(registers_view(destinations@) =~= Seq::<RegisterView>::empty());
            if all_destinations is Ok {
                assert(Seq::<RegisterView>::empty() + all_destinations.unwrap().0
                    =~= all_destinations.unwrap().0);
            }
        }
        // Read the destination registers.
        let mut j: usize = 0;
        while j < num_destinations
            invariant
                j <= num_destinations,
                destinations@.len() == j,
                at < counted < marked < place <= input@.len(),
                decode_call_operator(input@, at as int) == Ok::<
                    (CallOperatorView, int),
                    CodecError,
                >((operator@, counted as int)),
                num_operands == input@[counted as int],
                num_operands <= MAX_OPERANDS,
                decode_operands(input@, counted + 1, num_operands as nat) == Ok::<
                    (Seq<OperandView>, int),
                    CodecError,
                >((operands_view(operands@), marked as int)),
                num_destinations == input@[marked as int],
                num_destinations <= MAX_OPERANDS,
                all_destinations == decode_registers(input@, marked + 1, num_destinations as nat),
                all_destinations == registers_after(
                    registers_view(destinations@),
                    decode_registers(input@, place as int, (num_destinations - j) as nat),
                ),
            decreases num_destinations - j,
        {
            let ghost so_far = registers_view(destinations@);
            match Register::read_le(input, place) {
                Err(error) => {
                    assert(decode_registers(input@, place as int, (num_destinations - j) as nat)
                        == Err::<(Seq<RegisterView>, int), CodecError>(error));
                    return Err(error);
                },
                Ok((register, next)) => {
                    proof {
                        let rest = decode_registers(
                            input@,
                            next as int,
                            (num_destinations - j - 1) as nat,
                        );
                        assert(registers_view(destinations@.push(register)) =~= so_far.push(
                            register@,
                        ));
                        if rest is Ok {
                            assert(so_far + (seq![register@] + rest.unwrap().0) =~= so_far.push(
                                register@,
                            ) + rest.unwrap().0);
                        }
                    }
                    destinations.push(register);
                    place = next;
                },
            }
            j = j + 1;
        }
        proof {
            assert(registers_view(destinations@) + Seq::<RegisterView>::empty() =~= registers_view(
                destinations@,
            ));
        }
        // Return the operation.
        Ok((Call { operator, operands, destinations }, place))
    }
}

/// An operator that was written is read back from the text, whatever
/// stands before it, as long as a blank or nothing follows it.
#[verifier::rlimit(40)]
pub proof fn lemma_call_operator_text_round_trip(
    before: Seq<u8>,
    operator: CallOperatorView,
    after: Seq<u8>,
)
    requires
        operator.wf(),
        blank_or_end(after),
    ensures
        parse_call_operator(before + operator.text() + after, before.len() as int) == Some(
            (operator, (before.len() + operator.text().len()) as int),
        ),
{
    let bytes = before + operator.text() + after;
    match operator {
        CallOperatorView::Locator(locator) => {
            lemma_locator_text_round_trip(before, locator, after);
        },
        CallOperatorView::Resource(resource) => {
            lemma_identifier_text_round_trip(before, resource, after);
            let dot = (before.len() + resource.len()) as int;
            if dot < bytes.len() {
                assert(bytes[dot] == after[0]);
            }
            assert(parse_program_id(bytes, before.len() as int) is None);
        },
    }
}

/// An operator that was written is read back, whatever stands before and
/// after it.
#[verifier::rlimit(40)]
pub proof fn lemma_call_operator_round_trip(
    before: Seq<u8>,
    operator: CallOperatorView,
    after: Seq<u8>,
)
    requires
        operator.wf(),
    ensures
        decode_call_operator(before + operator.encoding() + after, before.len() as int) == Ok::<
            (CallOperatorView, int),
            CodecError,
        >((operator, (before.len() + operator.encoding().len()) as int)),
{
    let bytes = before + operator.encoding() + after;
    let at = before.len() as int;
    match operator {
        CallOperatorView::Locator(locator) => {
            lemma_regroup(before, seq![0u8], locator.encoding(), after);
            assert(bytes[at] == 0);
            lemma_locator_round_trip(before + seq![0u8], locator, after);
        },
        CallOperatorView::Resource(resource) => {
            lemma_regroup(before, seq![1u8], identifier_encoding(resource), after);
            assert(bytes[at] == 1);
            lemma_identifier_round_trip(before + seq![1u8], resource, after);
        },
    }
}

/// Operands that were written are read back, whatever stands before and
/// after them.
#[verifier::rlimit(40)]
pub proof fn lemma_operands_round_trip(before: Seq<u8>, operands: Seq<OperandView>, after: Seq<u8>)
    requires
        valid_operands(operands),
    ensures
        decode_operands(
            before + operands_encoding(operands) + after,
            before.len() as int,
            operands.len(),
        ) == Ok::<(Seq<OperandView>, int), CodecError>(
            (operands, (before.len() + operands_encoding(operands).len()) as int),
        ),
    decreases operands.len(),
{
    let bytes = before + operands_encoding(operands) + after;
    if operands.len() == 0 {
        assert(decode_operands(bytes, before.len() as int, 0).unwrap().0 =~= operands);
    } else {
        let first = operands[0].encoding();
        let rest = operands.drop_first();
        let tail = operands_encoding(rest);
        assert(operands[0].wf());
        assert(valid_operands(rest)) by {
            assert forall|i: int| 0 <= i < rest.len() implies (#[trigger] rest[i]).wf() by {
                assert(rest[i] == operands[i + 1]);
            }
        }
        lemma_regroup(before, first, tail, after);
        lemma_operand_round_trip(before, operands[0], tail + after);
        lemma_operands_round_trip(before + first, rest, after);
        assert(seq![operands[0]] + rest =~= operands);
    }
}

/// Registers that were written are read back, whatever stands before and
/// after them.
#[verifier::rlimit(40)]
pub proof fn lemma_registers_round_trip(
    before: Seq<u8>,
    registers: Seq<RegisterView>,
    after: Seq<u8>,
)
    requires
        valid_registers(registers),
    ensures
        decode_registers(
            before + registers_encoding(registers) + after,
            before.len() as int,
            registers.len(),
        ) == Ok::<(Seq<RegisterView>, int), CodecError>(
            (registers, (before.len() + registers_encoding(registers).len()) as int),
        ),
    decreases registers.len(),
{
    let bytes = before + registers_encoding(registers) + after;
    if registers.len() == 0 {
        assert(decode_registers(bytes, before.len() as int, 0).unwrap().0 =~= registers);
    } else {
        let first = registers[0].encoding();
        let rest = registers.drop_first();
        let tail = registers_encoding(rest);
        assert(registers[0].wf());
        assert(valid_registers(rest)) by {
            assert forall|i: int| 0 <= i < rest.len() implies (#[trigger] rest[i]).wf() by {
                assert(rest[i] == registers[i + 1]);
            }
        }
        lemma_regroup(before, first, tail, after);
        lemma_register_round_trip(before, registers[0], tail + after);
        lemma_registers_round_trip(before + first, rest, after);
        assert(seq![registers[0]] + rest =~= registers);
    }
}

/// Operands that were written are read back from the text, whatever stands
/// before them, as long as what follows them is no operand.
#[verifier::rlimit(40)]
pub proof fn lemma_operands_text_round_trip(
    before: Seq<u8>,
    operands: Seq<OperandView>,
    after: Seq<u8>,
)
    requires
        valid_operands(operands),
        blank_or_end(after),
        parse_operand(
            before + operands_text(operands) + after,
            spaces_end(
                before + operands_text(operands) + after,
                (before.len() + operands_text(operands).len()) as int,
            ),
        ) is None,
    ensures
        parse_operands(before + operands_text(operands) + after, before.len() as int) == (
            operands,
            (before.len() + operands_text(operands).len()) as int,
        ),
        operands.len() > 0 ==> parse_operands(
            before + operands_text(operands) + after,
            (before.len() + 1) as int,
        ) == (operands, (before.len() + operands_text(operands).len()) as int),
    decreases operands.len(),
{
    let bytes = before + operands_text(operands) + after;
    let at = before.len() as int;
    if operands.len() == 0 {
        assert(parse_operands(bytes, at).0 =~= operands);
    } else {
        let blank = seq![0x20u8];
        let first = operands[0].text();
        let rest = operands.drop_first();
        let tail = operands_text(rest);
        assert(operands[0].wf());
        assert(valid_operands(rest)) by {
            assert forall|i: int| 0 <= i < rest.len() implies (#[trigger] rest[i]).wf() by {
                assert(rest[i] == operands[i + 1]);
            }
        }
        assert(blank_or_end(tail + after)) by {
            if rest.len() > 0 {
                assert((tail + after)[0] == 0x20);
            } else if after.len() > 0 {
                assert((tail + after)[0] == after[0]);
            }
        }
        lemma_operand_text_round_trip(before + blank, operands[0], tail + after);
        assert(bytes =~= (before + blank) + first + (tail + after));
        assert(bytes =~= (before + blank + first) + tail + after);
        assert(bytes[at] == 0x20);
        assert(bytes[at + 1] == first[0]);
        lemma_spaces_end_one(bytes, at);
        lemma_operands_text_round_trip(before + blank + first, rest, after);
        assert(seq![operands[0]] + rest =~= operands);
    }
}

/// Destinations that were written are read back from the text, whatever
/// stands before them, as long as what follows them is no register.
#[verifier::rlimit(40)]
pub proof fn lemma_destinations_text_round_trip(
    before: Seq<u8>,
    registers: Seq<RegisterView>,
    after: Seq<u8>,
)
    requires
        valid_registers(registers),
        blank_or_end(after),
        parse_register(
            before + registers_text(registers) + after,
            spaces_end(
                before + registers_text(registers) + after,
                (before.len() + registers_text(registers).len()) as int,
            ),
        ) is None,
    ensures
        parse_destinations(before + registers_text(registers) + after, before.len() as int) == (
            registers,
            (before.len() + registers_text(registers).len()) as int,
        ),
        registers.len() > 0 ==> parse_destinations(
            before + registers_text(registers) + after,
            (before.len() + 1) as int,
        ) == (registers, (before.len() + registers_text(registers).len()) as int),
    decreases registers.len(),
{
    let bytes = before + registers_text(registers) + after;
    let at = before.len() as int;
    if registers.len() == 0 {
        assert(parse_destinations(bytes, at).0 =~= registers);
    } else {
        let blank = seq![0x20u8];
        let first = registers[0].text();
        let rest = registers.drop_first();
        let tail = registers_text(rest);
        assert(registers[0].wf());
        assert(valid_registers(rest)) by {
            assert forall|i: int| 0 <= i < rest.len() implies (#[trigger] rest[i]).wf() by {
                assert(rest[i] == registers[i + 1]);
            }
        }
        assert(blank_or_end(tail + after)) by {
            if rest.len() > 0 {
                assert((tail + after)[0] == 0x20);
            } else if after.len() > 0 {
                assert((tail + after)[0] == after[0]);
            }
        }
        lemma_register_text_round_trip(before + blank, registers[0], tail + after);
        assert(bytes =~= (before + blank) + first + (tail + after));
        assert(bytes =~= (before + blank + first) + tail + after);
        assert(bytes[at] == 0x20);
        assert(bytes[at + 1] == first[0]);
        lemma_spaces_end_one(bytes, at);
        lemma_destinations_text_round_trip(before + blank + first, rest, after);
        assert(seq![registers[0]] + rest =~= registers);
    }
}

/// Where a text ends there is no operand and no register.
proof fn lemma_end_is_no_operand(bytes: Seq<u8>)
    ensures
        parse_operand(bytes, bytes.len() as int) is None,
        parse_register(bytes, bytes.len() as int) is None,
        !tag_at(bytes, bytes.len() as int, ascii("into"@)),
{
    reveal_strlit("into");
    reveal_strlit("aleo1");
    reveal_strlit("true");
    reveal_strlit("false");
    let end = bytes.len() as int;
    assert(crate::text::digits_end(bytes, end) == end);
    assert(crate::literal::parse_integer(bytes, end) is None);
    assert(crate::literal::parse_address(bytes, end) is None);
    assert(crate::literal::parse_boolean(bytes, end) is None);
}

/// The word `into` is no operand.
proof fn lemma_into_is_no_operand(bytes: Seq<u8>, at: int)
    requires
        tag_at(bytes, at, ascii("into"@)),
    ensures
        parse_operand(bytes, at) is None,
{
    reveal_strlit("into");
    reveal_strlit("aleo1");
    reveal_strlit("true");
    reveal_strlit("false");
    assert(bytes.subrange(at, at + 4)[0] == bytes[at]);
    assert(bytes[at] == 0x69);
    lemma_tag_mismatch(bytes, at, ascii("aleo1"@), 0);
    lemma_tag_mismatch(bytes, at, ascii("true"@), 0);
    lemma_tag_mismatch(bytes, at, ascii("false"@), 0);
}

/// The first byte of an operator as it is written is a letter.
proof fn lemma_operator_text_starts(operator: CallOperatorView)
    requires
        operator.wf(),
    ensures
        operator.text().len() >= 1,
        crate::text::is_letter(operator.text()[0]),
{
    match operator {
        CallOperatorView::Locator(locator) => {
            assert(locator.text()[0] == locator.id.name[0]);
        },
        CallOperatorView::Resource(_) => {},
    }
}

/// Where the pieces of a call stand in its text.
#[verifier::rlimit(40)]
proof fn lemma_call_text_layout(call: CallView)
    requires
        call.wf(),
    ensures
        ({
            let bytes = call.text();
            let word = ascii("call "@);
            let operator = call.operator.text();
            let listed = operands_text(call.operands);
            let closing = closing_text(call.destinations);
            let named = 5 + operator.len() as int;
            let read = named + listed.len() as int;
            &&& word.len() == 5
            &&& bytes == word + operator + (listed + closing)
            &&& bytes == (word + operator) + listed + closing
            &&& bytes.len() == read + closing.len()
            &&& tag_at(bytes, 0, ascii("call"@))
            &&& bytes[4] == 0x20
            &&& operator.len() >= 1
            &&& bytes[5] == operator[0]
            &&& !is_space(operator[0])
            &&& blank_or_end(listed + closing)
            &&& blank_or_end(closing)
            &&& call.operands.len() > 0 ==> bytes[named] == 0x20
            &&& call.destinations.len() == 0 ==> bytes.len() == read
            &&& call.destinations.len() > 0 ==> {
                &&& bytes[read] == 0x20
                &&& tag_at(bytes, read + 1, ascii("into"@))
                &&& bytes[read + 5] == 0x20
                &&& bytes.len() == read + 5 + registers_text(call.destinations).len()
                &&& bytes == (word + operator + listed + ascii(" into"@)) + registers_text(
                    call.destinations,
                ) + Seq::<u8>::empty()
            }
        }),
{
    reveal_strlit("call ");
    reveal_strlit("call");
    reveal_strlit(" into");
    reveal_strlit("into");
    let bytes = call.text();
    let word = ascii("call "@);
    let operator = call.operator.text();
    let listed = operands_text(call.operands);
    let destined = registers_text(call.destinations);
    let conjunction = ascii(" into"@);
    let closing = closing_text(call.destinations);
    let named = 5 + operator.len() as int;
    let read = named + listed.len();
    lemma_operator_text_starts(call.operator);
    assert(bytes =~= word + operator + (listed + closing));
    assert(bytes =~= (word + operator) + listed + closing);
    assert(bytes.subrange(0, 4) =~= ascii("call"@));
    if call.operands.len() > 0 {
        assert(listed[0] == 0x20);
        assert(bytes[named] == listed[0]);
    }
    if call.destinations.len() > 0 {
        assert(destined[0] == 0x20);
        assert(bytes =~= (word + operator + listed) + conjunction + destined);
        assert(bytes =~= (word + operator + listed + conjunction) + destined + Seq::<u8>::empty());
        assert(bytes[read] == conjunction[0]);
        assert(bytes.subrange(read + 1, read + 5) =~= ascii("into"@)) by {
            assert(bytes[read + 1] == conjunction[1]);
            assert(bytes[read + 2] == conjunction[2]);
            assert(bytes[read + 3] == conjunction[3]);
            assert(bytes[read + 4] == conjunction[4]);
        }
        assert(bytes[read + 5] == destined[0]);
        assert(closing[0] == 0x20);
        if call.operands.len() == 0 {
            assert((listed + closing)[0] == closing[0]);
        } else {
            assert((listed + closing)[0] == listed[0]);
        }
    } else if call.operands.len() > 0 {
        assert((listed + closing)[0] == listed[0]);
    }
}

/// The opcode and the operator of a call are read back from its text.
#[verifier::rlimit(40)]
proof fn lemma_call_text_operator(call: CallView)
    requires
        call.wf(),
    ensures
        tag_at(call.text(), 0, ascii("call"@)),
        parse_call_operator(call.text(), spaces_end(call.text(), 4)) == Some(
            (call.operator, 5 + call.operator.text().len() as int),
        ),
{
    let bytes = call.text();
    lemma_call_text_layout(call);
    lemma_spaces_end_one(bytes, 4);
    lemma_call_operator_text_round_trip(
        ascii("call "@),
        call.operator,
        operands_text(call.operands) + closing_text(call.destinations),
    );
}

/// The operands of a call are read back from its text, and what follows
/// them is found behind them.
#[verifier::rlimit(40)]
proof fn lemma_call_text_operands(call: CallView)
    requires
        call.wf(),
    ensures
        ({
            let bytes = call.text();
            let named = 5 + call.operator.text().len() as int;
            let read = named + operands_text(call.operands).len() as int;
            let found = parse_operands(bytes, spaces_end(bytes, named));
            &&& found.0 == call.operands
            &&& spaces_end(bytes, found.1) == (if call.destinations.len() > 0 {
                read + 1
            } else {
                bytes.len() as int
            })
        }),
{
    let bytes = call.text();
    let word = ascii("call "@);
    let operator = call.operator.text();
    let listed = operands_text(call.operands);
    let closing = closing_text(call.destinations);
    let named = 5 + operator.len() as int;
    let read = named + listed.len();
    let length = bytes.len() as int;
    lemma_call_text_layout(call);
    // What follows the operands is none.
    if call.destinations.len() > 0 {
        assert(bytes[read + 1] == 0x69) by {
            reveal_strlit("into");
            assert(bytes.subrange(read + 1, read + 5)[0] == bytes[read + 1]);
        }
        lemma_spaces_end_one(bytes, read);
        lemma_into_is_no_operand(bytes, read + 1);
    } else {
        lemma_end_is_no_operand(bytes);
    }
    lemma_operands_text_round_trip(word + operator, call.operands, closing);
    if call.operands.len() > 0 {
        assert(call.operands[0].wf());
        lemma_operand_text_round_trip(word + operator + seq![0x20u8], call.operands[0], Seq::<
            u8,
        >::empty());
        assert(bytes[named + 1] == call.operands[0].text()[0]) by {
            assert(listed[1] == call.operands[0].text()[0]);
            assert(bytes[named + 1] == listed[1]);
        }
        lemma_spaces_end_one(bytes, named);
    } else {
        assert(parse_operands(bytes, spaces_end(bytes, named)).0 =~= call.operands);
    }
}

/// The destinations of a call are read back from its text.
#[verifier::rlimit(40)]
proof fn lemma_call_text_destinations(call: CallView)
    requires
        call.wf(),
    ensures
        ({
            let bytes = call.text();
            let read = 5 + call.operator.text().len() as int + operands_text(
                call.operands,
            ).len() as int;
            &&& call.destinations.len() == 0 ==> !tag_at(
                bytes,
                bytes.len() as int,
                ascii("into"@),
            )
            &&& call.destinations.len() > 0 ==> tag_at(bytes, read + 1, ascii("into"@))
                && parse_destinations(bytes, spaces_end(bytes, read + 5)) == (
                call.destinations,
                bytes.len() as int,
            )
        }),
{
    reveal_strlit("into");
    let bytes = call.text();
    let word = ascii("call "@);
    let operator = call.operator.text();
    let listed = operands_text(call.operands);
    let destined = registers_text(call.destinations);
    let read = 5 + operator.len() as int + listed.len() as int;
    let length = bytes.len() as int;
    lemma_call_text_layout(call);
    if call.destinations.len() > 0 {
        let head = word + operator + listed + ascii(" into"@);
        assert(call.destinations[0].wf());
        lemma_register_text_round_trip(head + seq![0x20u8], call.destinations[0], Seq::<
            u8,
        >::empty());
        assert(bytes[read + 6] == call.destinations[0].text()[0]) by {
            assert(destined[1] == call.destinations[0].text()[0]);
            assert(bytes[read + 6] == destined[1]);
        }
        lemma_spaces_end_one(bytes, read + 5);
        lemma_end_is_no_operand(bytes);
        lemma_destinations_text_round_trip(head, call.destinations, Seq::<u8>::empty());
    } else {
        lemma_end_is_no_operand(bytes);
    }
}

/// A call that was written is read back from the text: the parser reads
/// what the printer writes.
#[verifier::rlimit(40)]
pub proof fn lemma_call_text_round_trip(call: CallView)
    requires
        call.wf(),
    ensures
        parse_call(call.text(), 0) == Ok::<(CallView, int), ParseError>(
            (call, call.text().len() as int),
        ),
{
    lemma_call_text_operator(call);
    lemma_call_text_operands(call);
    lemma_call_text_destinations(call);
    if call.destinations.len() == 0 {
        assert(call.destinations =~= Seq::<RegisterView>::empty());
    }
}

/// The call that bytes hold, from the parts that they hold one after
/// another.
proof fn lemma_decode_call_parts(bytes: Seq<u8>, at: int, call: CallView, counted: int, next: int, end: int)
    requires
        decode_call_operator(bytes, at) == Ok::<(CallOperatorView, int), CodecError>(
            (call.operator, counted),
        ),
        0 <= counted < bytes.len(),
        bytes[counted] == call.operands.len(),
        call.operands.len() <= MAX_OPERANDS,
        decode_operands(bytes, counted + 1, call.operands.len()) == Ok::<
            (Seq<OperandView>, int),
            CodecError,
        >((call.operands, next)),
        0 <= next < bytes.len(),
        bytes[next] == call.destinations.len(),
        call.destinations.len() <= MAX_OPERANDS,
        decode_registers(bytes, next + 1, call.destinations.len()) == Ok::<
            (Seq<RegisterView>, int),
            CodecError,
        >((call.destinations, end)),
    ensures
        decode_call(bytes, at) == Ok::<(CallView, int), CodecError>((call, end)),
{
}

/// The length of a concatenation of five parts, and the bytes that stand
/// at the joints.
proof fn lemma_call_layout(
    before: Seq<u8>,
    operator: Seq<u8>,
    n: u8,
    operands: Seq<u8>,
    m: u8,
    destinations: Seq<u8>,
    after: Seq<u8>,
)
    ensures
        ({
            let bytes = before + (operator + seq![n] + operands + seq![m] + destinations) + after;
            let counted = before.len() + operator.len();
            let next = counted + 1 + operands.len();
            &&& bytes.len() == next + 1 + destinations.len() + after.len()
            &&& bytes[counted as int] == n
            &&& bytes[next as int] == m
            &&& bytes == before + operator + (seq![n] + operands + seq![m] + destinations + after)
            &&& bytes == before + operator + seq![n] + operands + (seq![m] + destinations + after)
            &&& bytes == before + operator + seq![n] + operands + seq![m] + destinations + after
        }),
{
    let bytes = before + (operator + seq![n] + operands + seq![m] + destinations) + after;
    assert(bytes =~= before + operator + (seq![n] + operands + seq![m] + destinations + after));
    assert(bytes =~= before + operator + seq![n] + operands + (seq![m] + destinations + after));
    assert(bytes =~= before + operator + seq![n] + operands + seq![m] + destinations + after);
}

/// A call that was written is read back, whatever stands before and after
/// it.
#[verifier::rlimit(40)]
pub proof fn lemma_call_round_trip(before: Seq<u8>, call: CallView, after: Seq<u8>)
    requires
        call.wf(),
    ensures
        decode_call(before + call.encoding() + after, before.len() as int) == Ok::<
            (CallView, int),
            CodecError,
        >((call, (before.len() + call.encoding().len()) as int)),
{
    let bytes = before + call.encoding() + after;
    let operator = call.operator.encoding();
    let operands = operands_encoding(call.operands);
    let destinations = registers_encoding(call.destinations);
    let n = call.operands.len() as u8;
    let m = call.destinations.len() as u8;
    let counted = (before.len() + operator.len()) as int;
    let next = counted + 1 + operands.len();
    let end = next + 1 + destinations.len();
    lemma_call_layout(before, operator, n, operands, m, destinations, after);
    assert(decode_call_operator(bytes, before.len() as int) == Ok::<
        (CallOperatorView, int),
        CodecError,
    >((call.operator, counted))) by {
        lemma_call_operator_round_trip(
            before,
            call.operator,
            seq![n] + operands + seq![m] + destinations + after,
        );
    }
    assert(decode_operands(bytes, counted + 1, call.operands.len()) == Ok::<
        (Seq<OperandView>, int),
        CodecError,
    >((call.operands, next))) by {
        lemma_operands_round_trip(
            before + operator + seq![n],
            call.operands,
            seq![m] + destinations + after,
        );
    }
    assert(decode_registers(bytes, next + 1, call.destinations.len()) == Ok::<
        (Seq<RegisterView>, int),
        CodecError,
    >((call.destinations, end))) by {
        lemma_registers_round_trip(
            before + operator + seq![n] + operands + seq![m],
            call.destinations,
            after,
        );
    }
    lemma_decode_call_parts(bytes, before.len() as int, call, counted, next, end);
}

} // verus!

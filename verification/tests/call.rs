use snarkvm_core::call::{Call, CallOperator, ParseError, MAX_OPERANDS};
use snarkvm_core::codec::CodecError;
use snarkvm_core::identifier::Identifier;
use snarkvm_core::literal::{Address, IntegerLiteral, IntegerType, Literal};
use snarkvm_core::locator::{Locator, ProgramID};
use snarkvm_core::opcode::Opcode;
use snarkvm_core::operand::Operand;
use snarkvm_core::register::Register;

const TEST_CASES: &[&str] = &[
    "call foo",
    "call foo r0",
    "call foo r0.owner",
    "call foo r0 r1",
    "call foo r0.owner r0.gates",
    "call foo into r0",
    "call foo into r0 r1",
    "call foo into r0 r1 r2",
    "call foo r0 into r1",
    "call foo r0 r1 into r2",
    "call foo r0 r1 into r2 r3",
    "call foo r0 r1 r2 into r3 r4",
    "call foo r0 r1 r2 into r3 r4 r5",
];

fn check_parser(
    string: &str,
    expected_operator: CallOperator,
    expected_operands: Vec<Operand>,
    expected_destinations: Vec<Register>,
) {
    // Check that the parser works.
    let (call, end) = Call::parse(string.as_bytes(), 0).unwrap();

    // Check that the entire string was consumed.
    assert!(end == string.len(), "Parser did not consume all of the string: '{}'", &string[end..]);

    // Check that the operator is correct.
    assert_eq!(call.operator(), &expected_operator, "The call operator is incorrect");

    // Check that the operands are correct.
    assert_eq!(call.operands().len(), expected_operands.len(), "The number of operands is incorrect");
    for (i, (given, expected)) in call.operands().iter().zip(expected_operands.iter()).enumerate() {
        assert_eq!(given, expected, "The {i}-th operand is incorrect");
    }

    // Check that the destinations are correct.
    assert_eq!(call.destinations().len(), expected_destinations.len(), "The number of destinations is incorrect");
    for (i, (given, expected)) in call.destinations().iter().zip(expected_destinations.iter()).enumerate() {
        assert_eq!(given, expected, "The {i}-th destination is incorrect");
    }
}

#[test]
fn test_parse() {
    check_parser(
        "call transfer r0.owner r0.gates r0.token_amount into r1 r2 r3",
        CallOperator::from_str("transfer").unwrap(),
        vec![
            Operand::Register(Register::Member(0, vec![Identifier::from_str("owner").unwrap()])),
            Operand::Register(Register::Member(0, vec![Identifier::from_str("gates").unwrap()])),
            Operand::Register(Register::Member(0, vec![Identifier::from_str("token_amount").unwrap()])),
        ],
        vec![Register::Locator(1), Register::Locator(2), Register::Locator(3)],
    );

    check_parser(
        "call mint_public aleo1wfyyj2uvwuqw0c0dqa5x70wrawnlkkvuepn4y08xyaqfqqwweqys39jayw 100u64",
        CallOperator::from_str("mint_public").unwrap(),
        vec![
            Operand::Literal(Literal::Address(
                Address::from_str("aleo1wfyyj2uvwuqw0c0dqa5x70wrawnlkkvuepn4y08xyaqfqqwweqys39jayw").unwrap(),
            )),
            Operand::Literal(Literal::from_str("100u64").unwrap()),
        ],
        vec![],
    );

    check_parser(
        "call get_magic_number into r0",
        CallOperator::from_str("get_magic_number").unwrap(),
        vec![],
        vec![Register::Locator(0)],
    );

    check_parser("call noop", CallOperator::from_str("noop").unwrap(), vec![], vec![])
}

#[test]
fn test_display() {
    for expected in TEST_CASES {
        assert_eq!(Call::from_str(expected).unwrap().to_string(), *expected);
    }
}

#[test]
fn test_bytes() {
    for case in TEST_CASES {
        let expected = Call::from_str(case).unwrap();

        // Check the byte representation.
        let expected_bytes = expected.to_bytes_le().unwrap();
        assert_eq!(expected, Call::read_le(&expected_bytes[..], 0).unwrap().0);
        assert!(Call::read_le(&expected_bytes[1..], 0).is_err());
    }
}

/// The fixed layout: a byte for the variant, then the fields in their
/// order, numbers least significant byte first.
#[test]
fn test_byte_layout() {
    let call = Call::from_str("call foo r258 true into r1.a").unwrap();
    let bytes = call.to_bytes_le().unwrap();
    let expected: Vec<u8> = vec![
        1, 3, b'f', b'o', b'o', // a local resource: its length and its name
        2, // two operands
        1, 0, 2, 1, 0, 0, 0, 0, 0, 0, // a register: r258
        0, 1, 1, // a literal: a boolean: true
        1, // one destination
        1, 1, 0, 0, 0, 0, 0, 0, 0, 1, 0, 1, b'a', // a member: r1, one name, a
    ];
    assert_eq!(bytes, expected);
    let (read, end) = Call::read_le(&bytes, 0).unwrap();
    assert_eq!(end, bytes.len());
    assert_eq!(read, call);

    let call = Call::from_str("call token.aleo/mint -2i16 300u128").unwrap();
    let bytes = call.to_bytes_le().unwrap();
    let mut expected: Vec<u8> = vec![0, 5, b't', b'o', b'k', b'e', b'n', 4, b'a', b'l', b'e', b'o', 4, b'm', b'i', b'n', b't', 2];
    expected.extend_from_slice(&[0, 2, 1, 0xfe, 0xff]);
    expected.extend_from_slice(&[0, 2, 9, 0x2c, 0x01, 0, 0, 0, 0, 0, 0, 0, 0, 0, 0, 0, 0, 0, 0]);
    expected.push(0);
    assert_eq!(bytes, expected);
    assert_eq!(Call::read_le(&bytes, 0).unwrap().0, call);

    // The call is read from where it starts, and what follows it is left.
    let mut framed = vec![0xaa, 0xbb];
    framed.extend_from_slice(&bytes);
    framed.extend_from_slice(&[0xcc]);
    let (read, end) = Call::read_le(&framed, 2).unwrap();
    assert_eq!(read, call);
    assert_eq!(end, framed.len() - 1);
}

/// Every way in which bytes fail to be a call.
#[test]
fn test_bytes_errors() {
    assert_eq!(Call::read_le(&[], 0).unwrap_err(), CodecError::UnexpectedEnd);
    // A variant of the operator that does not exist.
    assert_eq!(Call::read_le(&[2, 3, b'f', b'o', b'o', 0, 0], 0).unwrap_err(), CodecError::InvalidVariant);
    assert_eq!(CallOperator::read_le(&[7], 0).unwrap_err(), CodecError::InvalidVariant);
    // A name that is not an identifier.
    assert_eq!(Call::read_le(&[1, 3, b'1', b'o', b'o', 0, 0], 0).unwrap_err(), CodecError::InvalidIdentifier);
    assert_eq!(Call::read_le(&[1, 0, 0, 0], 0).unwrap_err(), CodecError::InvalidIdentifier);
    // A name that is cut off.
    assert_eq!(Call::read_le(&[1, 3, b'f', b'o'], 0).unwrap_err(), CodecError::UnexpectedEnd);
    // No count of operands.
    assert_eq!(Call::read_le(&[1, 3, b'f', b'o', b'o'], 0).unwrap_err(), CodecError::UnexpectedEnd);
    // More operands than there can be.
    assert_eq!(Call::read_le(&[1, 3, b'f', b'o', b'o', 9], 0).unwrap_err(), CodecError::TooManyOperands);
    // More destinations than there can be.
    assert_eq!(Call::read_le(&[1, 3, b'f', b'o', b'o', 0, 9], 0).unwrap_err(), CodecError::TooManyDestinations);
    // An operand of a variant that does not exist.
    assert_eq!(Call::read_le(&[1, 3, b'f', b'o', b'o', 1, 2], 0).unwrap_err(), CodecError::InvalidVariant);
    // A boolean that is neither 0 nor 1.
    assert_eq!(Call::read_le(&[1, 3, b'f', b'o', b'o', 1, 0, 1, 2, 0], 0).unwrap_err(), CodecError::InvalidBoolean);
    // An integer of a type that does not exist.
    assert_eq!(Call::read_le(&[1, 3, b'f', b'o', b'o', 1, 0, 2, 10, 0], 0).unwrap_err(), CodecError::InvalidVariant);
    // A member without names.
    assert_eq!(
        Call::read_le(&[1, 3, b'f', b'o', b'o', 0, 1, 1, 0, 0, 0, 0, 0, 0, 0, 0, 0, 0], 0).unwrap_err(),
        CodecError::EmptyPath
    );
    // An address that is none.
    let mut bytes = vec![1, 3, b'f', b'o', b'o', 1, 0, 0];
    bytes.extend_from_slice(&[b'x'; 63]);
    bytes.push(0);
    assert_eq!(Call::read_le(&bytes, 0).unwrap_err(), CodecError::InvalidAddress);

    // A call with too many operands or destinations is not written.
    let operator = CallOperator::from_str("foo").unwrap();
    let many: Vec<Operand> = (0..(MAX_OPERANDS as u64 + 1)).map(|i| Operand::Register(Register::Locator(i))).collect();
    let call = Call::new(operator.clone(), many, vec![]);
    assert_eq!(call.to_bytes_le().unwrap_err(), CodecError::TooManyOperands);
    assert!(!call.is_valid());
    let many: Vec<Register> = (0..(MAX_OPERANDS as u64 + 1)).map(Register::Locator).collect();
    let call = Call::new(operator.clone(), vec![], many);
    assert_eq!(call.to_bytes_le().unwrap_err(), CodecError::TooManyDestinations);
    let full: Vec<Register> = (0..(MAX_OPERANDS as u64)).map(Register::Locator).collect();
    let call = Call::new(operator, vec![], full);
    assert!(call.is_valid());
    let bytes = call.to_bytes_le().unwrap();
    assert_eq!(Call::read_le(&bytes, 0).unwrap().0, call);
}

/// Every way in which a text fails to be a call.
#[test]
fn test_parse_errors() {
    assert_eq!(Call::from_str("").unwrap_err(), ParseError::ExpectedOpcode);
    assert_eq!(Call::from_str("cal foo").unwrap_err(), ParseError::ExpectedOpcode);
    assert_eq!(Call::from_str(" call foo").unwrap_err(), ParseError::ExpectedOpcode);
    assert_eq!(Call::from_str("call").unwrap_err(), ParseError::ExpectedOperator);
    assert_eq!(Call::from_str("call 1foo").unwrap_err(), ParseError::ExpectedOperator);
    assert_eq!(Call::from_str("call foo;").unwrap_err(), ParseError::TrailingCharacters);
    assert_eq!(Call::from_str("call foo r0 bar").unwrap_err(), ParseError::TrailingCharacters);
    assert_eq!(Call::from_str("call foo 256u8").unwrap_err(), ParseError::TrailingCharacters);
    assert_eq!(Call::from_str("call foo r0 r1 r2 r3 r4 r5 r6 r7 r8").unwrap_err(), ParseError::TooManyOperands);
    assert_eq!(
        Call::from_str("call foo into r0 r1 r2 r3 r4 r5 r6 r7 r8").unwrap_err(),
        ParseError::TooManyDestinations
    );
    assert!(Call::from_str("call foo r0 r1 r2 r3 r4 r5 r6 r7 into r0 r1 r2 r3 r4 r5 r6 r7").is_ok());
    assert_eq!(CallOperator::from_str("").unwrap_err(), ParseError::ExpectedOperator);
    assert_eq!(CallOperator::from_str("foo bar").unwrap_err(), ParseError::TrailingCharacters);
    for error in [
        ParseError::ExpectedOpcode,
        ParseError::ExpectedOperator,
        ParseError::TooManyOperands,
        ParseError::TooManyDestinations,
        ParseError::TrailingCharacters,
    ] {
        assert!(error.message().starts_with("Failed to parse"));
    }
    assert_eq!(ParseError::TooManyOperands.message(), "Failed to parse 'call' opcode: too many operands");
}

/// What the parser reads, piece by piece.
#[test]
fn test_parse_pieces() {
    // Blanks of any kind and number stand between the pieces.
    let call = Call::from_str("call\tfoo  r0\n\n r1.x.y   into\r\nr2").unwrap();
    assert_eq!(call.to_string(), "call foo r0 r1.x.y into r2");
    assert_eq!(Call::opcode(), Opcode::Call);
    assert_eq!(Call::opcode().to_string(), "call");

    // An operator is a locator or a local name.
    let locator = Locator::new(
        ProgramID::new(Identifier::from_str("token").unwrap(), Identifier::from_str("aleo").unwrap()),
        Identifier::from_str("transfer").unwrap(),
    );
    assert_eq!(CallOperator::from_str("token.aleo/transfer").unwrap(), CallOperator::Locator(locator.clone()));
    assert_eq!(locator.to_string(), "token.aleo/transfer");
    assert_eq!(locator.program_id().to_string(), "token.aleo");
    assert_eq!(locator.resource().to_string(), "transfer");
    assert_eq!(
        CallOperator::from_str("token").unwrap(),
        CallOperator::Resource(Identifier::from_str("token").unwrap())
    );
    assert_eq!(CallOperator::from_str("token.aleo/transfer").unwrap().to_string(), "token.aleo/transfer");
    // A program without a resource is read as the name before the dot.
    let (operator, end) = CallOperator::parse(b"token.aleo r0", 0).unwrap();
    assert_eq!(operator, CallOperator::Resource(Identifier::from_str("token").unwrap()));
    assert_eq!(end, 5);

    // Identifiers.
    assert!(Identifier::from_str("a").is_some());
    assert!(Identifier::from_str("a_1_B").is_some());
    assert!(Identifier::from_str("").is_none());
    assert!(Identifier::from_str("_a").is_none());
    assert!(Identifier::from_str("1a").is_none());
    assert!(Identifier::from_str("a-b").is_none());
    assert!(Identifier::from_str(&"a".repeat(31)).is_some());
    assert!(Identifier::from_str(&"a".repeat(32)).is_none());
    assert!(Identifier::parse(&"a".repeat(32).into_bytes(), 0).is_none());

    // Registers.
    assert_eq!(Register::from_str("r0").unwrap(), Register::Locator(0));
    assert_eq!(Register::from_str("r18446744073709551615").unwrap(), Register::Locator(u64::MAX));
    assert!(Register::from_str("r18446744073709551616").is_none());
    assert!(Register::from_str("r").is_none());
    assert!(Register::from_str("r0.").is_none());
    assert!(Register::from_str("r0.1").is_none());
    assert_eq!(Register::from_str("r007").unwrap(), Register::Locator(7));
    assert_eq!(
        Register::from_str("r1.owner.id").unwrap(),
        Register::Member(1, vec![Identifier::from_str("owner").unwrap(), Identifier::from_str("id").unwrap()])
    );
    assert_eq!(Register::from_str("r1.owner.id").unwrap().to_string(), "r1.owner.id");
    assert_eq!(Register::Locator(42).to_string(), "r42");
    assert_eq!(Register::from_str("r1.owner.id").unwrap().locator(), 1);
    assert!(!Register::Member(0, vec![]).is_valid());
    assert!(Register::from_str("r1.owner.id").unwrap().is_valid());

    // Literals.
    assert_eq!(Literal::from_str("true").unwrap(), Literal::Boolean(true));
    assert_eq!(Literal::from_str("false").unwrap(), Literal::Boolean(false));
    assert_eq!(
        Literal::from_str("255u8").unwrap(),
        Literal::Integer(IntegerLiteral::new(IntegerType::U8, 255).unwrap())
    );
    assert!(Literal::from_str("256u8").is_none());
    assert!(Literal::from_str("-1u8").is_none());
    assert_eq!(
        Literal::from_str("-128i8").unwrap(),
        Literal::Integer(IntegerLiteral::new(IntegerType::I8, 0x80).unwrap())
    );
    assert!(Literal::from_str("128i8").is_none());
    assert!(Literal::from_str("-129i8").is_none());
    assert_eq!(Literal::from_str("-0i8").unwrap(), Literal::from_str("0i8").unwrap());
    assert_eq!(Literal::from_str("007i8").unwrap(), Literal::from_str("7i8").unwrap());
    assert_eq!(
        Literal::from_str("340282366920938463463374607431768211455u128").unwrap(),
        Literal::Integer(IntegerLiteral::new(IntegerType::U128, u128::MAX).unwrap())
    );
    assert!(Literal::from_str("340282366920938463463374607431768211456u128").is_none());
    assert!(Literal::from_str("99999999999999999999999999999999999999999999u128").is_none());
    assert_eq!(
        Literal::from_str("-170141183460469231731687303715884105728i128").unwrap(),
        Literal::Integer(IntegerLiteral::new(IntegerType::I128, 1 << 127).unwrap())
    );
    assert!(Literal::from_str("5").is_none());
    assert!(Literal::from_str("5u7").is_none());
    assert!(Literal::from_str("u8").is_none());
    assert!(IntegerLiteral::new(IntegerType::U16, 65536).is_none());
    assert!(IntegerLiteral::from_parts(IntegerType::I16, true, 32768).is_some());
    assert!(IntegerLiteral::from_parts(IntegerType::I16, false, 32768).is_none());
    for text in ["0u8", "255u8", "-128i8", "127i8", "-1i16", "65535u16", "-2147483648i32", "4294967295u32",
        "-9223372036854775808i64", "18446744073709551615u64", "-1i128", "340282366920938463463374607431768211455u128",
        "true", "false", "aleo1wfyyj2uvwuqw0c0dqa5x70wrawnlkkvuepn4y08xyaqfqqwweqys39jayw"]
    {
        let literal = Literal::from_str(text).unwrap();
        assert!(literal.is_valid());
        assert_eq!(literal.to_string(), text);
        let mut bytes = Vec::new();
        literal.write_le(&mut bytes);
        let (read, end) = Literal::read_le(&bytes, 0).unwrap();
        assert_eq!(read, literal);
        assert_eq!(end, bytes.len());
        let operand = Operand::from_str(text).unwrap();
        assert_eq!(operand, Operand::Literal(literal));
        assert_eq!(operand.to_string(), text);
    }
    // Addresses have one form.
    assert!(Address::from_str("aleo1wfyyj2uvwuqw0c0dqa5x70wrawnlkkvuepn4y08xyaqfqqwweqys39jay").is_none());
    assert!(Address::from_str("aleo1wfyyj2uvwuqw0c0dqa5x70wrawnlkkvuepn4y08xyaqfqqwweqys39jaywq").is_none());
    assert!(Address::from_str("aleo1wfyyj2uvwuqw0c0dqa5x70wrawnlkkvuepn4y08xyaqfqqwweqys39jayb").is_none());
    assert!(Address::from_str("alex1wfyyj2uvwuqw0c0dqa5x70wrawnlkkvuepn4y08xyaqfqqwweqys39jayw").is_none());
    // An operand is a literal or a register, and nothing else.
    assert_eq!(Operand::from_str("r3").unwrap(), Operand::Register(Register::Locator(3)));
    assert!(Operand::from_str("foo").is_none());
    assert!(Operand::from_str("r3 ").is_none());
}

/// A call that is written and read again, in text and in bytes, is the
/// same call.
#[test]
fn test_round_trips() {
    let texts = [
        "call token.aleo/transfer r0.owner.a r1 -5i64 true into r2 r3.b",
        "call a into r0",
        "call into into r0",
        "call r0 r0",
        "call call",
        "call x aleo1wfyyj2uvwuqw0c0dqa5x70wrawnlkkvuepn4y08xyaqfqqwweqys39jayw 1u8 2u16 3u32 4u64 5u128 6i8 7i16",
    ];
    for text in texts {
        let call = Call::from_str(text).unwrap();
        assert!(call.is_valid());
        assert_eq!(call.to_string(), text);
        assert_eq!(Call::from_str(&call.to_string()).unwrap(), call);
        let bytes = call.to_bytes_le().unwrap();
        let (read, end) = Call::read_le(&bytes, 0).unwrap();
        assert_eq!(read, call);
        assert_eq!(end, bytes.len());
        let mut out = Vec::new();
        call.write_le(&mut out).unwrap();
        assert_eq!(out, bytes);
        let mut written = Vec::new();
        call.write_text(&mut written);
        assert_eq!(written, text.as_bytes());
    }
}

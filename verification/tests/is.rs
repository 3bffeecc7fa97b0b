use snarkvm_core::circuit::Circuit;
use snarkvm_core::circuit_literal::CircuitLiteral;
use snarkvm_core::error::InstructionError;
use snarkvm_core::identifier::Identifier;
use snarkvm_core::is::{IsEq, IsInstruction, IsNeq, Stack};
use snarkvm_core::literal::{Address, IntegerLiteral, IntegerType, Literal, LiteralType};
use snarkvm_core::locator::{Locator, ProgramID};
use snarkvm_core::mode::Mode;
use snarkvm_core::opcode::Opcode;
use snarkvm_core::operand::Operand;
use snarkvm_core::register::Register;
use snarkvm_core::registers::Registers;
use snarkvm_core::types::{PlaintextType, RegisterType};

const TYPES: [IntegerType; 10] = [
    IntegerType::I8,
    IntegerType::I16,
    IntegerType::I32,
    IntegerType::I64,
    IntegerType::I128,
    IntegerType::U8,
    IntegerType::U16,
    IntegerType::U32,
    IntegerType::U64,
    IntegerType::U128,
];

/// A small generator of test values: the same sequence on every run.
struct Sequence(u64);

impl Sequence {
    fn next(&mut self) -> u128 {
        let mut out: u128 = 0;
        for _ in 0..2 {
            self.0 = self.0.wrapping_mul(6364136223846793005).wrapping_add(1442695040888963407);
            out = (out << 64) | (self.0 ^ (self.0 >> 29)) as u128;
        }
        out
    }
}

/// One literal of every type that can be put on wires.
fn sample_literals(values: &mut Sequence) -> Vec<Literal> {
    let mut literals = vec![Literal::Boolean(values.next() & 1 == 1)];
    for ty in TYPES {
        let mask = if ty.bits() == 128 { u128::MAX } else { (1u128 << ty.bits()) - 1 };
        literals.push(Literal::Integer(IntegerLiteral::new(ty, values.next() & mask).unwrap()));
    }
    literals
}

fn sample_stack() -> Stack {
    Stack::new(ProgramID::new(Identifier::from_str("testing").unwrap(), Identifier::from_str("aleo").unwrap()))
}

/// The operands `r0` and `r1` and the destination `r2`.
fn sample_operation<const VARIANT: u8>() -> IsInstruction<VARIANT> {
    let operands = vec![Operand::Register(Register::Locator(0)), Operand::Register(Register::Locator(1))];
    IsInstruction::<VARIANT>::new(operands, Register::Locator(2))
}

/// Registers with the two literals in `r0` and `r1`, and in the circuit
/// where modes are given.
fn sample_registers(
    cs: &mut Circuit,
    literal_a: &Literal,
    literal_b: &Literal,
    mode_a: Option<Mode>,
    mode_b: Option<Mode>,
) -> Registers {
    let mut registers = Registers::new();
    registers.store(&Register::Locator(0), literal_a.clone()).unwrap();
    registers.store(&Register::Locator(1), literal_b.clone()).unwrap();
    if let (Some(mode_a), Some(mode_b)) = (mode_a, mode_b) {
        let circuit_a = CircuitLiteral::new(cs, mode_a, literal_a).unwrap();
        let circuit_b = CircuitLiteral::new(cs, mode_b, literal_b).unwrap();
        registers.store_circuit(&Register::Locator(0), circuit_a).unwrap();
        registers.store_circuit(&Register::Locator(1), circuit_b).unwrap();
    }
    registers
}

fn register_type(literal: &Literal) -> RegisterType {
    RegisterType::Plaintext(PlaintextType::Literal(literal.to_type()))
}

fn check_is<const VARIANT: u8>(literal_a: &Literal, literal_b: &Literal, mode_a: &Mode, mode_b: &Mode) {
    println!("Checking '{:?}' for '{:?}.{:?}' and '{:?}.{:?}'", VARIANT, literal_a, mode_a, literal_b, mode_b);

    // Initialize the types.
    let type_a = literal_a.to_type();
    let type_b = literal_b.to_type();
    assert_eq!(type_a, type_b, "The two literals must be the *same* type for this test");

    // Initialize the stack.
    let stack = sample_stack();
    // Initialize the operation.
    let operation = sample_operation::<VARIANT>();
    // Initialize a destination operand.
    let destination_operand = Operand::Register(Register::Locator(2));
    // The types check.
    let types = stack.is_output_types(&operation, &[register_type(literal_a), register_type(literal_b)]).unwrap();
    assert_eq!(types, vec![RegisterType::Plaintext(PlaintextType::Literal(LiteralType::Boolean))]);

    let mut cs = Circuit::new();

    /* First, check the operation *succeeds* when both operands are `literal_a.mode_a`. */
    {
        // Attempt to compute the valid operand case.
        let mut registers = sample_registers(&mut cs, literal_a, literal_a, None, None);
        stack.evaluate_is(&operation, &mut registers).unwrap();

        // Retrieve the output.
        let output_a = registers.load(&destination_operand).unwrap();

        // Ensure the output is correct.
        if let Literal::Boolean(output_a) = output_a {
            match VARIANT {
                0 => assert!(output_a, "Instruction failed (console): {:?} {:?}", literal_a, literal_a),
                1 => assert!(!output_a, "Instruction should have failed (console): {:?} {:?}", literal_a, literal_a),
                _ => panic!("Found an invalid 'is' variant in the test"),
            }
        } else {
            panic!("The output must be a boolean (console)");
        }

        // Attempt to compute the valid operand case.
        let mut registers = sample_registers(&mut cs, literal_a, literal_a, Some(*mode_a), Some(*mode_a));
        stack.execute_is(&operation, &mut registers, &mut cs).unwrap();

        // Retrieve the output.
        let output_b = registers.load_circuit(&mut cs, &destination_operand).unwrap();

        // Ensure the output is correct.
        if let CircuitLiteral::Boolean(output_b) = output_b {
            match VARIANT {
                0 => assert!(output_b.eject_value(), "Instruction failed (circuit)"),
                1 => assert!(!output_b.eject_value(), "Instruction should have failed (circuit)"),
                _ => panic!("Found an invalid 'is' variant in the test"),
            }
            assert_eq!(output_b.eject_mode(), mode_a.combine(*mode_a));
        } else {
            panic!("The output must be a boolean (circuit)");
        }

        // Reset the circuit.
        cs.reset();
    }
    /* Next, check the mismatching literals *fail*. */
    if literal_a != literal_b {
        // Attempt to compute the valid operand case.
        let mut registers = sample_registers(&mut cs, literal_a, literal_b, None, None);
        stack.evaluate_is(&operation, &mut registers).unwrap();

        // Retrieve the output.
        let output_a = registers.load(&destination_operand).unwrap();

        // Ensure the output is correct.
        if let Literal::Boolean(output_a) = output_a {
            match VARIANT {
                0 => assert!(!output_a, "Instruction should have failed (console): {:?} {:?}", literal_a, literal_b),
                1 => assert!(output_a, "Instruction failed (console): {:?} {:?}", literal_a, literal_b),
                _ => panic!("Found an invalid 'is' variant in the test"),
            }
        } else {
            panic!("The output must be a boolean (console)");
        }

        // Attempt to compute the valid operand case.
        let mut registers = sample_registers(&mut cs, literal_a, literal_b, Some(*mode_a), Some(*mode_b));
        stack.execute_is(&operation, &mut registers, &mut cs).unwrap();

        // Retrieve the output.
        let output_b = registers.load_circuit(&mut cs, &destination_operand).unwrap();

        // Ensure the output is correct.
        if let CircuitLiteral::Boolean(output_b) = output_b {
            match VARIANT {
                0 => assert!(!output_b.eject_value(), "Instruction failed (circuit)"),
                1 => assert!(output_b.eject_value(), "Instruction should have failed (circuit)"),
                _ => panic!("Found an invalid 'is' variant in the test"),
            }
        } else {
            panic!("The output must be a boolean (circuit)");
        }

        // Reset the circuit.
        cs.reset();
    }
}

fn check_is_fails<const VARIANT: u8>(literal_a: &Literal, literal_b: &Literal) {
    // Initialize the types.
    let type_a = literal_a.to_type();
    let type_b = literal_b.to_type();
    assert_ne!(type_a, type_b, "The two literals must be *different* types for this test");

    // If the types mismatch, ensure the instruction is refused.
    let stack = sample_stack();
    let operation = sample_operation::<VARIANT>();
    let result = stack.is_output_types(&operation, &[register_type(literal_a), register_type(literal_b)]);
    assert!(result.is_err(), "The types should have been refused for: {:?} {:?}", type_a, type_b);
    match result.unwrap_err() {
        InstructionError::InputTypes { opcode, first, second } => {
            assert_eq!(opcode, IsInstruction::<VARIANT>::opcode());
            assert_eq!(first, register_type(literal_a));
            assert_eq!(second, register_type(literal_b));
        },
        error => panic!("unexpected error: {:?}", error),
    }
}

#[test]
fn test_is_eq_succeeds() {
    // Prepare the test.
    let mut values = Sequence(1);
    let literals_a = sample_literals(&mut values);
    let literals_b = sample_literals(&mut values);
    let modes_a = [Mode::Constant, Mode::Public, Mode::Private];
    let modes_b = [Mode::Constant, Mode::Public, Mode::Private];

    for (literal_a, literal_b) in literals_a.iter().zip(literals_b.iter()) {
        for mode_a in &modes_a {
            for mode_b in &modes_b {
                // Check the operation.
                check_is::<0>(literal_a, literal_b, mode_a, mode_b);
            }
        }
    }
}

#[test]
fn test_is_eq_fails() {
    // Prepare the test.
    let mut values = Sequence(2);
    let literals_a = sample_literals(&mut values);
    let literals_b = sample_literals(&mut values);

    for literal_a in &literals_a {
        for literal_b in &literals_b {
            if literal_a.to_type() != literal_b.to_type() {
                // Check the operation fails.
                check_is_fails::<0>(literal_a, literal_b);
            }
        }
    }
}

#[test]
fn test_is_neq_succeeds() {
    // Prepare the test.
    let mut values = Sequence(3);
    let literals_a = sample_literals(&mut values);
    let literals_b = sample_literals(&mut values);
    let modes_a = [Mode::Constant, Mode::Public, Mode::Private];
    let modes_b = [Mode::Constant, Mode::Public, Mode::Private];

    for (literal_a, literal_b) in literals_a.iter().zip(literals_b.iter()) {
        for mode_a in &modes_a {
            for mode_b in &modes_b {
                // Check the operation.
                check_is::<1>(literal_a, literal_b, mode_a, mode_b);
            }
        }
    }
}

#[test]
fn test_is_neq_fails() {
    // Prepare the test.
    let mut values = Sequence(4);
    let literals_a = sample_literals(&mut values);
    let literals_b = sample_literals(&mut values);

    for literal_a in &literals_a {
        for literal_b in &literals_b {
            if literal_a.to_type() != literal_b.to_type() {
                // Check the operation fails.
                check_is_fails::<1>(literal_a, literal_b);
            }
        }
    }
}

/// What the types of an `is` instruction are checked for, in order, and
/// what each refusal says.
#[test]
fn test_is_output_types_errors() {
    let stack = sample_stack();
    assert_eq!(stack.program_id().to_string(), "testing.aleo");
    let operation = sample_operation::<0>();
    let boolean = RegisterType::Plaintext(PlaintextType::Literal(LiteralType::Boolean));
    let number = RegisterType::Plaintext(PlaintextType::Literal(LiteralType::Integer(IntegerType::U8)));
    let record = RegisterType::Record(Identifier::from_str("token").unwrap());
    let external = RegisterType::ExternalRecord(Locator::new(
        ProgramID::new(Identifier::from_str("credits").unwrap(), Identifier::from_str("aleo").unwrap()),
        Identifier::from_str("credits").unwrap(),
    ));
    let structure = RegisterType::Plaintext(PlaintextType::Struct(Identifier::from_str("message").unwrap()));

    // The number of input types.
    let error = stack.is_output_types(&operation, &[boolean.clone()]).unwrap_err();
    assert_eq!(error, InstructionError::InputCount { opcode: Opcode::IsEq, expected: 2, found: 1 });
    assert_eq!(error.message(), "Instruction 'is.eq' expects 2 inputs, found 1 inputs");
    let error = stack.is_output_types(&sample_operation::<1>(), &[]).unwrap_err();
    assert_eq!(error.message(), "Instruction 'is.neq' expects 2 inputs, found 0 inputs");
    let three = [boolean.clone(), boolean.clone(), boolean.clone()];
    assert_eq!(
        stack.is_output_types(&operation, &three).unwrap_err().message(),
        "Instruction 'is.eq' expects 2 inputs, found 3 inputs"
    );

    // The types of the inputs.
    let error = stack.is_output_types(&operation, &[boolean.clone(), number.clone()]).unwrap_err();
    assert_eq!(
        error.message(),
        "Instruction 'is.eq' expects inputs of the same type. Found inputs of type 'boolean' and 'u8'"
    );
    let error = stack.is_output_types(&operation, &[record.clone(), external.clone()]).unwrap_err();
    assert_eq!(
        error.message(),
        "Instruction 'is.eq' expects inputs of the same type. Found inputs of type 'token.record' and 'credits.aleo/credits.record'"
    );
    let error = stack.is_output_types(&operation, &[structure.clone(), number.clone()]).unwrap_err();
    assert_eq!(
        error.message(),
        "Instruction 'is.eq' expects inputs of the same type. Found inputs of type 'message' and 'u8'"
    );
    assert!(stack.is_output_types(&operation, &[record.clone(), record.clone()]).is_ok());
    assert!(stack.is_output_types(&operation, &[structure.clone(), structure]).is_ok());

    // The number of operands.
    let short = IsEq::new(vec![Operand::Register(Register::Locator(0))], Register::Locator(1));
    let error = stack.is_output_types(&short, &[number.clone(), number.clone()]).unwrap_err();
    assert_eq!(error, InstructionError::OperandCount { opcode: Opcode::IsEq, expected: 2, found: 1 });
    assert_eq!(error.message(), "Instruction 'is.eq' expects 2 operands, found 1 operands");

    // The variant.
    let invalid = sample_operation::<2>();
    let error = stack.is_output_types(&invalid, &[number.clone(), number.clone()]).unwrap_err();
    assert_eq!(error, InstructionError::InvalidVariant { variant: 2 });
    assert_eq!(error.message(), "Invalid 'is' variant: 2");

    // What an instruction holds.
    let operation = IsNeq::new(vec![Operand::Literal(Literal::Boolean(true))], Register::Locator(9));
    assert_eq!(IsNeq::opcode(), Opcode::IsNeq);
    assert_eq!(IsEq::opcode().to_string(), "is.eq");
    assert_eq!(operation.operands(), &[Operand::Literal(Literal::Boolean(true))]);
    assert_eq!(operation.destinations(), vec![Register::Locator(9)]);
    assert_eq!(operation.destination(), &Register::Locator(9));
}

/// What evaluation and execution refuse, and what they leave behind.
#[test]
fn test_is_evaluation_errors() {
    let stack = sample_stack();
    let mut cs = Circuit::new();
    let five = Literal::from_str("5u8").unwrap();
    let address = Literal::Address(
        Address::from_str("aleo1wfyyj2uvwuqw0c0dqa5x70wrawnlkkvuepn4y08xyaqfqqwweqys39jayw").unwrap(),
    );

    // The number of operands.
    let short = IsEq::new(vec![Operand::Register(Register::Locator(0))], Register::Locator(1));
    let mut registers = Registers::new();
    let error = stack.evaluate_is(&short, &mut registers).unwrap_err();
    assert_eq!(error.message(), "Instruction 'is.eq' expects 2 operands, found 1 operands");
    let error = stack.execute_is(&short, &mut registers, &mut cs).unwrap_err();
    assert_eq!(error, InstructionError::OperandCount { opcode: Opcode::IsEq, expected: 2, found: 1 });

    // A register that holds nothing.
    let operation = sample_operation::<0>();
    let error = stack.evaluate_is(&operation, &mut registers).unwrap_err();
    assert_eq!(error, InstructionError::RegisterNotFound { locator: 0 });
    assert_eq!(error.message(), "Register 'r0' does not exist");
    registers.store(&Register::Locator(0), five.clone()).unwrap();
    let error = stack.evaluate_is(&operation, &mut registers).unwrap_err();
    assert_eq!(error, InstructionError::RegisterNotFound { locator: 1 });
    let error = stack.execute_is(&operation, &mut registers, &mut cs).unwrap_err();
    assert_eq!(error, InstructionError::RegisterNotFound { locator: 0 });

    // A destination that holds something.
    registers.store(&Register::Locator(1), five.clone()).unwrap();
    registers.store(&Register::Locator(2), five.clone()).unwrap();
    let error = stack.evaluate_is(&operation, &mut registers).unwrap_err();
    assert_eq!(error, InstructionError::RegisterOccupied { locator: 2 });
    assert_eq!(error.message(), "Cannot write to occupied register 'r2'");
    assert_eq!(registers.load(&Operand::Register(Register::Locator(2))).unwrap(), five);

    // A destination that is a member, and an operand that is one.
    let member = Register::Member(3, vec![Identifier::from_str("x").unwrap()]);
    let into_member = IsEq::new(
        vec![Operand::Register(Register::Locator(0)), Operand::Register(Register::Locator(1))],
        member.clone(),
    );
    let error = stack.evaluate_is(&into_member, &mut registers).unwrap_err();
    assert_eq!(error, InstructionError::StoreToMember { locator: 3 });
    assert_eq!(error.message(), "Cannot store to a member of register 'r3'");
    let of_member = IsEq::new(
        vec![Operand::Register(Register::Member(0, vec![Identifier::from_str("x").unwrap()])), Operand::Literal(five.clone())],
        Register::Locator(4),
    );
    let error = stack.evaluate_is(&of_member, &mut registers).unwrap_err();
    assert_eq!(error, InstructionError::MemberNotFound { locator: 0 });
    assert_eq!(error.message(), "Register 'r0' holds no struct");

    // A variant that does not exist: after the operands are loaded.
    let invalid = sample_operation::<2>();
    let mut fresh = Registers::new();
    fresh.store(&Register::Locator(0), five.clone()).unwrap();
    fresh.store(&Register::Locator(1), five.clone()).unwrap();
    let error = stack.evaluate_is(&invalid, &mut fresh).unwrap_err();
    assert_eq!(error, InstructionError::InvalidVariant { variant: 2 });

    // Literals as operands: values of different types are not equal.
    let literals = IsEq::new(
        vec![Operand::Literal(five.clone()), Operand::Literal(Literal::from_str("5u16").unwrap())],
        Register::Locator(7),
    );
    stack.evaluate_is(&literals, &mut fresh).unwrap();
    assert_eq!(fresh.load(&Operand::Register(Register::Locator(7))).unwrap(), Literal::Boolean(false));
    // In a circuit they are not compared.
    cs.reset();
    let error = stack.execute_is(&literals, &mut fresh, &mut cs).unwrap_err();
    assert_eq!(error, InstructionError::DifferentTypes);
    assert_eq!(error.message(), "Cannot compare values of different types");
    // The literals were put on wires before: eight and sixteen constants.
    assert_eq!((cs.num_constants(), cs.num_public(), cs.num_private(), cs.num_constraints()), (24, 0, 0, 0));

    // Addresses are compared as plain values and have no wires.
    let addresses = IsNeq::new(
        vec![Operand::Literal(address.clone()), Operand::Literal(address.clone())],
        Register::Locator(8),
    );
    stack.evaluate_is(&addresses, &mut fresh).unwrap();
    assert_eq!(fresh.load(&Operand::Register(Register::Locator(8))).unwrap(), Literal::Boolean(false));
    let error = stack.execute_is(&addresses, &mut fresh, &mut cs).unwrap_err();
    assert_eq!(error, InstructionError::NotInCircuit);
    assert_eq!(error.message(), "The literal cannot be put on wires");
    assert!(CircuitLiteral::new(&mut cs, Mode::Private, &address).is_none());
}

/// What execution adds to a circuit.
#[test]
fn test_is_execution_cost() {
    let stack = sample_stack();
    let operation = sample_operation::<0>();
    let a = Literal::from_str("1000u32").unwrap();
    let b = Literal::from_str("1001u32").unwrap();
    for (mode_a, mode_b, expected) in [
        (Mode::Constant, Mode::Constant, (1, 0, 0, 0)),
        (Mode::Constant, Mode::Private, (0, 0, 63, 63)),
        (Mode::Public, Mode::Constant, (0, 0, 63, 63)),
        (Mode::Public, Mode::Private, (0, 0, 63, 63)),
    ] {
        let mut cs = Circuit::new();
        let mut registers = sample_registers(&mut cs, &a, &b, Some(mode_a), Some(mode_b));
        cs.enter_scope("is.eq");
        stack.execute_is(&operation, &mut registers, &mut cs).unwrap();
        assert_eq!(
            (cs.num_constants_in_scope(), cs.num_public_in_scope(), cs.num_private_in_scope(), cs.num_constraints_in_scope()),
            expected
        );
        let output = registers.load_circuit(&mut cs, &Operand::Register(Register::Locator(2))).unwrap();
        assert_eq!(output.eject_value(), Literal::Boolean(false));
        assert_eq!(output.eject_mode(), mode_a.combine(mode_b));
        // The plain registers are as they were.
        assert_eq!(registers.load(&Operand::Register(Register::Locator(2))).unwrap_err(), InstructionError::RegisterNotFound { locator: 2 });
    }
    // Booleans: one wire.
    let mut cs = Circuit::new();
    let mut registers =
        sample_registers(&mut cs, &Literal::Boolean(true), &Literal::Boolean(true), Some(Mode::Private), Some(Mode::Public));
    cs.enter_scope("is.neq");
    stack.execute_is(&sample_operation::<1>(), &mut registers, &mut cs).unwrap();
    assert_eq!(
        (cs.num_constants_in_scope(), cs.num_public_in_scope(), cs.num_private_in_scope(), cs.num_constraints_in_scope()),
        (0, 0, 1, 1)
    );
    let output = registers.load_circuit(&mut cs, &Operand::Register(Register::Locator(2))).unwrap();
    assert_eq!(output.eject_value(), Literal::Boolean(false));
}

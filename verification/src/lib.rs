//! Fixed-width integer gadgets for arithmetic circuits, with the cost model
//! and the mode inference that go with them, and the instruction-level
//! pieces that surround them.
//!
//! The gadgets emit into a [`circuit::Circuit`], the session that tallies
//! constants, wires and constraints. An [`integer::Integer`] is a sequence of
//! boolean wires; [`integer::Integer::pow_wrapped`] raises one to the power
//! of another by a fixed ladder of wrapped multiplications and selections.
//! What the ladder adds to a circuit, and the mode of its result, can be had
//! without synthesis from [`integer::Integer::count`] and
//! [`integer::Integer::output_mode`].

// Modes, tallies and the session.
pub mod mode;
pub mod count;
pub mod circuit;

// Native arithmetic, wires and integers.
pub mod native;
pub mod boolean;
pub mod bits;
pub mod integer;
pub mod circuit_type;

// The gadgets.
pub mod mul_wrapped;
pub mod pow_wrapped;
pub mod equality;

// Text and bytes.
pub mod text;
pub mod codec;

// What instructions are made of.
pub mod identifier;
pub mod locator;
pub mod register;
pub mod literal;
pub mod operand;
pub mod types;
pub mod opcode;
pub mod circuit_literal;

// Instructions.
pub mod error;
pub mod registers;
pub mod is;
pub mod call;

// The names of the history of the ledger's mappings.
pub mod history;

//! Literals in a circuit: booleans and integers of the ten types, on wires.

use crate::bits::{mode_of, wires_of};
use crate::boolean::{wire_cost, Boolean, Wire};
use crate::circuit::Circuit;
use crate::count::Cost;
use crate::equality::wire_equality_cost;
use crate::integer::{I128, I16, I32, I64, I8, U128, U16, U32, U64, U8};
use crate::literal::{IntegerLiteral, IntegerType, Literal, LiteralType, LiteralView};
use crate::mode::Mode;
use vstd::prelude::*;

verus! {

/// An integer of one of the ten types, in a circuit.
pub enum CircuitInteger {
    I8(I8),
    I16(I16),
    I32(I32),
    I64(I64),
    I128(I128),
    U8(U8),
    U16(U16),
    U32(U32),
    U64(U64),
    U128(U128),
}

/// What witnessing an integer of the given type in the given mode adds to a
/// circuit: one wire of that mode for each bit.
pub open spec fn integer_witness_cost(ty: IntegerType, mode: Mode) -> Cost {
    let bits = ty.bits_spec();
    match mode {
        Mode::Constant => Cost::new(bits, 0, 0, 0),
        Mode::Public => Cost::new(0, bits, 0, 0),
        Mode::Private => Cost::new(0, 0, bits, 0),
    }
}

/// What comparing two integers of the given type adds to a circuit.
pub open spec fn integer_equality_cost(ty: IntegerType, both_constant: bool) -> Cost {
    let bits = ty.bits_spec();
    if both_constant {
        Cost::new(1, 0, 0, 0)
    } else {
        Cost::new(0, 0, (2 * bits - 1) as nat, (2 * bits - 1) as nat)
    }
}

impl CircuitInteger {
    /// The type of the integer.
    pub open spec fn ty(&self) -> IntegerType {
        match self {
            CircuitInteger::I8(_) => IntegerType::I8,
            CircuitInteger::I16(_) => IntegerType::I16,
            CircuitInteger::I32(_) => IntegerType::I32,
            CircuitInteger::I64(_) => IntegerType::I64,
            CircuitInteger::I128(_) => IntegerType::I128,
            CircuitInteger::U8(_) => IntegerType::U8,
            CircuitInteger::U16(_) => IntegerType::U16,
            CircuitInteger::U32(_) => IntegerType::U32,
            CircuitInteger::U64(_) => IntegerType::U64,
            CircuitInteger::U128(_) => IntegerType::U128,
        }
    }

    /// The wires of the integer.
    pub open spec fn wires(&self) -> Seq<Wire> {
        match self {
            CircuitInteger::I8(integer) => integer@,
            CircuitInteger::I16(integer) => integer@,
            CircuitInteger::I32(integer) => integer@,
            CircuitInteger::I64(integer) => integer@,
            CircuitInteger::I128(integer) => integer@,
            CircuitInteger::U8(integer) => integer@,
            CircuitInteger::U16(integer) => integer@,
            CircuitInteger::U32(integer) => integer@,
            CircuitInteger::U64(integer) => integer@,
            CircuitInteger::U128(integer) => integer@,
        }
    }

    /// The bit pattern on the wires.
    pub open spec fn pattern(&self) -> nat {
        crate::bits::le_value(self.wires())
    }

    /// The mode of the integer.
    pub open spec fn mode(&self) -> Mode {
        mode_of(self.wires())
    }

    /// Witnesses an integer literal as a new integer of the given mode.
    pub fn new(cs: &mut Circuit, mode: Mode, literal: IntegerLiteral) -> (r: CircuitInteger)
        requires
            literal.wf(),
            old(cs).wf(),
            old(cs).fits(integer_witness_cost(literal.ty, mode)),
        ensures
            r.ty() == literal.ty,
            r.pattern() == literal.pattern,
            r.mode() == mode,
            r.wires() == wires_of(literal.pattern as nat, literal.ty.bits_spec(), mode),
            final(cs).extends(*old(cs), integer_witness_cost(literal.ty, mode)),
    {
        let pattern: u128 = literal.pattern;
        match literal.ty {
            IntegerType::I8 => CircuitInteger::I8(I8::new(cs, mode, pattern)),
            IntegerType::I16 => CircuitInteger::I16(I16::new(cs, mode, pattern)),
            IntegerType::I32 => CircuitInteger::I32(I32::new(cs, mode, pattern)),
            IntegerType::I64 => CircuitInteger::I64(I64::new(cs, mode, pattern)),
            IntegerType::I128 => CircuitInteger::I128(I128::new(cs, mode, pattern)),
            IntegerType::U8 => CircuitInteger::U8(U8::new(cs, mode, pattern)),
            IntegerType::U16 => CircuitInteger::U16(U16::new(cs, mode, pattern)),
            IntegerType::U32 => CircuitInteger::U32(U32::new(cs, mode, pattern)),
            IntegerType::U64 => CircuitInteger::U64(U64::new(cs, mode, pattern)),
            IntegerType::U128 => CircuitInteger::U128(U128::new(cs, mode, pattern)),
        }
    }

    /// The literal that the integer holds.
    pub fn eject_value(&self) -> (r: IntegerLiteral)
        ensures
            r.ty == self.ty(),
            r.pattern == self.pattern(),
            r.wf(),
    {
        match self {
            CircuitInteger::I8(integer) => IntegerLiteral {
                ty: IntegerType::I8,
                pattern: integer.eject_value(),
            },
            CircuitInteger::I16(integer) => IntegerLiteral {
                ty: IntegerType::I16,
                pattern: integer.eject_value(),
            },
            CircuitInteger::I32(integer) => IntegerLiteral {
                ty: IntegerType::I32,
                pattern: integer.eject_value(),
            },
            CircuitInteger::I64(integer) => IntegerLiteral {
                ty: IntegerType::I64,
                pattern: integer.eject_value(),
            },
            CircuitInteger::I128(integer) => IntegerLiteral {
                ty: IntegerType::I128,
                pattern: integer.eject_value(),
            },
            CircuitInteger::U8(integer) => IntegerLiteral {
                ty: IntegerType::U8,
                pattern: integer.eject_value(),
            },
            CircuitInteger::U16(integer) => IntegerLiteral {
                ty: IntegerType::U16,
                pattern: integer.eject_value(),
            },
            CircuitInteger::U32(integer) => IntegerLiteral {
                ty: IntegerType::U32,
                pattern: integer.eject_value(),
            },
            CircuitInteger::U64(integer) => IntegerLiteral {
                ty: IntegerType::U64,
                pattern: integer.eject_value(),
            },
            CircuitInteger::U128(integer) => IntegerLiteral {
                ty: IntegerType::U128,
                pattern: integer.eject_value(),
            },
        }
    }

    /// The mode of the integer.
    pub fn eject_mode(&self) -> (r: Mode)
        ensures
            r == self.mode(),
    {
        match self {
            CircuitInteger::I8(integer) => integer.eject_mode(),
            CircuitInteger::I16(integer) => integer.eject_mode(),
            CircuitInteger::I32(integer) => integer.eject_mode(),
            CircuitInteger::I64(integer) => integer.eject_mode(),
            CircuitInteger::I128(integer) => integer.eject_mode(),
            CircuitInteger::U8(integer) => integer.eject_mode(),
            CircuitInteger::U16(integer) => integer.eject_mode(),
            CircuitInteger::U32(integer) => integer.eject_mode(),
            CircuitInteger::U64(integer) => integer.eject_mode(),
            CircuitInteger::U128(integer) => integer.eject_mode(),
        }
    }

    /// A copy on the same wires.
    pub fn duplicate(&self) -> (r: CircuitInteger)
        ensures
            r.ty() == self.ty(),
            r.wires() == self.wires(),
    {
        match self {
            CircuitInteger::I8(integer) => CircuitInteger::I8(integer.duplicate()),
            CircuitInteger::I16(integer) => CircuitInteger::I16(integer.duplicate()),
            CircuitInteger::I32(integer) => CircuitInteger::I32(integer.duplicate()),
            CircuitInteger::I64(integer) => CircuitInteger::I64(integer.duplicate()),
            CircuitInteger::I128(integer) => CircuitInteger::I128(integer.duplicate()),
            CircuitInteger::U8(integer) => CircuitInteger::U8(integer.duplicate()),
            CircuitInteger::U16(integer) => CircuitInteger::U16(integer.duplicate()),
            CircuitInteger::U32(integer) => CircuitInteger::U32(integer.duplicate()),
            CircuitInteger::U64(integer) => CircuitInteger::U64(integer.duplicate()),
            CircuitInteger::U128(integer) => CircuitInteger::U128(integer.duplicate()),
        }
    }

    /// Whether two integers of one type hold the same value. Integers of
    /// different types are not compared: the result is `None` and nothing is
    /// emitted.
    pub fn is_equal(&self, cs: &mut Circuit, other: &CircuitInteger) -> (r: Option<Boolean>)
        requires
            old(cs).wf(),
            self.ty() == other.ty() ==> old(cs).fits(
                integer_equality_cost(
                    self.ty(),
                    self.mode() == Mode::Constant && other.mode() == Mode::Constant,
                ),
            ),
        ensures
            self.ty() != other.ty() ==> r is None && *final(cs) == *old(cs),
            self.ty() == other.ty() ==> {
                &&& r matches Some(equal)
                &&& equal@ == (Wire {
                    mode: self.mode().combine_spec(other.mode()),
                    value: self.pattern() == other.pattern(),
                })
                &&& final(cs).extends(
                    *old(cs),
                    integer_equality_cost(
                        self.ty(),
                        self.mode() == Mode::Constant && other.mode() == Mode::Constant,
                    ),
                )
            },
    {
        match (self, other) {
            (CircuitInteger::I8(a), CircuitInteger::I8(b)) => Some(a.is_equal(cs, b)),
            (CircuitInteger::I16(a), CircuitInteger::I16(b)) => Some(a.is_equal(cs, b)),
            (CircuitInteger::I32(a), CircuitInteger::I32(b)) => Some(a.is_equal(cs, b)),
            (CircuitInteger::I64(a), CircuitInteger::I64(b)) => Some(a.is_equal(cs, b)),
            (CircuitInteger::I128(a), CircuitInteger::I128(b)) => Some(a.is_equal(cs, b)),
            (CircuitInteger::U8(a), CircuitInteger::U8(b)) => Some(a.is_equal(cs, b)),
            (CircuitInteger::U16(a), CircuitInteger::U16(b)) => Some(a.is_equal(cs, b)),
            (CircuitInteger::U32(a), CircuitInteger::U32(b)) => Some(a.is_equal(cs, b)),
            (CircuitInteger::U64(a), CircuitInteger::U64(b)) => Some(a.is_equal(cs, b)),
            (CircuitInteger::U128(a), CircuitInteger::U128(b)) => Some(a.is_equal(cs, b)),
            _ => None,
        }
    }
}

/// What a literal in a circuit says: the literal that it holds, and its
/// mode.
pub struct CircuitLiteralView {
    pub literal: LiteralView,
    pub mode: Mode,
}

/// A literal in a circuit: a boolean wire, or an integer on its wires.
pub enum CircuitLiteral {
    Boolean(Boolean),
    Integer(CircuitInteger),
}

/// What witnessing a literal in the given mode adds to a circuit.
pub open spec fn literal_witness_cost(literal: LiteralView, mode: Mode) -> Cost {
    match literal {
        LiteralView::Integer(integer) => integer_witness_cost(integer.ty, mode),
        _ => wire_cost(mode),
    }
}

/// What comparing two literals of the given type adds to a circuit.
pub open spec fn literal_equality_cost(ty: LiteralType, both_constant: bool) -> Cost {
    match ty {
        LiteralType::Integer(integer) => integer_equality_cost(integer, both_constant),
        _ => wire_equality_cost(both_constant, both_constant),
    }
}

impl View for CircuitLiteral {
    type V = CircuitLiteralView;

    open spec fn view(&self) -> CircuitLiteralView {
        match self {
            CircuitLiteral::Boolean(boolean) => CircuitLiteralView {
                literal: LiteralView::Boolean(boolean@.value),
                mode: boolean@.mode,
            },
            CircuitLiteral::Integer(integer) => CircuitLiteralView {
                literal: LiteralView::Integer(
                    IntegerLiteral { ty: integer.ty(), pattern: integer.pattern() as u128 },
                ),
                mode: integer.mode(),
            },
        }
    }
}

impl CircuitLiteral {
    /// Witnesses a literal in the given mode. An address has no wires here:
    /// the result is `None` and nothing is emitted.
    pub fn new(cs: &mut Circuit, mode: Mode, literal: &Literal) -> (r: Option<CircuitLiteral>)
        requires
            literal@.wf(),
            old(cs).wf(),
            !(literal@ is Address) ==> old(cs).fits(literal_witness_cost(literal@, mode)),
        ensures
            literal@ is Address ==> r is None && *final(cs) == *old(cs),
            !(literal@ is Address) ==> {
                &&& r matches Some(witness)
                &&& witness@ == (CircuitLiteralView { literal: literal@, mode })
                &&& final(cs).extends(*old(cs), literal_witness_cost(literal@, mode))
            },
    {
        match literal {
            Literal::Address(_) => None,
            Literal::Boolean(value) => Some(CircuitLiteral::Boolean(Boolean::new(cs, mode, *value))),
            Literal::Integer(integer) => Some(
                CircuitLiteral::Integer(CircuitInteger::new(cs, mode, *integer)),
            ),
        }
    }

    /// The literal that the wires hold.
    pub fn eject_value(&self) -> (r: Literal)
        ensures
            r@ == self@.literal,
            r@.wf(),
    {
        match self {
            CircuitLiteral::Boolean(boolean) => Literal::Boolean(boolean.eject_value()),
            CircuitLiteral::Integer(integer) => Literal::Integer(integer.eject_value()),
        }
    }

    /// The mode of the literal.
    pub fn eject_mode(&self) -> (r: Mode)
        ensures
            r == self@.mode,
    {
        match self {
            CircuitLiteral::Boolean(boolean) => boolean.eject_mode(),
            CircuitLiteral::Integer(integer) => integer.eject_mode(),
        }
    }

    /// A copy on the same wires.
    pub fn duplicate(&self) -> (r: CircuitLiteral)
        ensures
            r@ == self@,
    {
        match self {
            CircuitLiteral::Boolean(boolean) => CircuitLiteral::Boolean(*boolean),
            CircuitLiteral::Integer(integer) => CircuitLiteral::Integer(integer.duplicate()),
        }
    }

    /// Whether two literals of one type hold the same value. Literals of
    /// different types are not compared: the result is `None` and nothing is
    /// emitted.
    pub fn is_equal(&self, cs: &mut Circuit, other: &CircuitLiteral) -> (r: Option<Boolean>)
        requires
            old(cs).wf(),
            self@.literal.literal_type() == other@.literal.literal_type() ==> old(cs).fits(
                literal_equality_cost(
                    self@.literal.literal_type(),
                    self@.mode == Mode::Constant && other@.mode == Mode::Constant,
                ),
            ),
        ensures
            self@.literal.literal_type() != other@.literal.literal_type() ==> r is None
                && *final(cs) == *old(cs),
            self@.literal.literal_type() == other@.literal.literal_type() ==> {
                &&& r matches Some(equal)
                &&& equal@ == (Wire {
                    mode: self@.mode.combine_spec(other@.mode),
                    value: self@.literal == other@.literal,
                })
                &&& final(cs).extends(
                    *old(cs),
                    literal_equality_cost(
                        self@.literal.literal_type(),
                        self@.mode == Mode::Constant && other@.mode == Mode::Constant,
                    ),
                )
            },
    {
        match (self, other) {
            (CircuitLiteral::Boolean(a), CircuitLiteral::Boolean(b)) => Some(a.is_equal(cs, b)),
            (CircuitLiteral::Integer(a), CircuitLiteral::Integer(b)) => {
                let _ = a.eject_value();
                let _ = b.eject_value();
                a.is_equal(cs, b)
            },
            _ => None,
        }
    }
}

} // verus!

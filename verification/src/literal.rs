//! Literals: the values that can be written into an instruction, and their
//! types.

use crate::codec::{
    le_bytes,
    le_number,
    lemma_byte_ranges,
    lemma_le_bytes,
    lemma_le_number,
    read_le,
    write_le,
    CodecError,
};
use crate::native::{is_integer_width, lemma_width_moduli};
use crate::text::{
    all_ascii,
    ascii,
    blank_or_end,
    chars_of,
    decimal,
    decimal_value,
    digits_end,
    is_digit,
    is_space,
    lemma_decimal,
    lemma_digits_end_of,
    lemma_runs_end,
    lemma_tag_match,
    lemma_tag_mismatch,
    push_bytes,
    push_decimal,
    push_str,
    read_decimal,
    skip_digits,
    starts_with,
    string_from_ascii,
    tag_at,
};
use vstd::arithmetic::power2::pow2;
use vstd::prelude::*;
use vstd::string::StringSliceAdditionalSpecFns;

verus! {

/// The ten integer types.
#[derive(Clone, Copy, Debug, PartialEq, Eq, Hash, Structural)]
pub enum IntegerType {
    I8,
    I16,
    I32,
    I64,
    I128,
    U8,
    U16,
    U32,
    U64,
    U128,
}

impl IntegerType {
    /// The width of the type in bits.
    pub open spec fn bits_spec(self) -> nat {
        match self {
            IntegerType::I8 | IntegerType::U8 => 8,
            IntegerType::I16 | IntegerType::U16 => 16,
            IntegerType::I32 | IntegerType::U32 => 32,
            IntegerType::I64 | IntegerType::U64 => 64,
            IntegerType::I128 | IntegerType::U128 => 128,
        }
    }

    /// Whether the type is signed.
    pub open spec fn signed_spec(self) -> bool {
        match self {
            IntegerType::I8 | IntegerType::I16 | IntegerType::I32 | IntegerType::I64
            | IntegerType::I128 => true,
            _ => false,
        }
    }

    /// The name of the type, as it is written behind a literal.
    pub open spec fn name(self) -> Seq<char> {
        match self {
            IntegerType::I8 => "i8"@,
            IntegerType::I16 => "i16"@,
            IntegerType::I32 => "i32"@,
            IntegerType::I64 => "i64"@,
            IntegerType::I128 => "i128"@,
            IntegerType::U8 => "u8"@,
            IntegerType::U16 => "u16"@,
            IntegerType::U32 => "u32"@,
            IntegerType::U64 => "u64"@,
            IntegerType::U128 => "u128"@,
        }
    }

    /// The number that stands for the type in bytes.
    pub open spec fn index_spec(self) -> u8 {
        match self {
            IntegerType::I8 => 0,
            IntegerType::I16 => 1,
            IntegerType::I32 => 2,
            IntegerType::I64 => 3,
            IntegerType::I128 => 4,
            IntegerType::U8 => 5,
            IntegerType::U16 => 6,
            IntegerType::U32 => 7,
            IntegerType::U64 => 8,
            IntegerType::U128 => 9,
        }
    }

    /// The type that a number stands for in bytes.
    pub open spec fn from_index_spec(index: u8) -> Option<IntegerType> {
        if index == 0 {
            Some(IntegerType::I8)
        } else if index == 1 {
            Some(IntegerType::I16)
        } else if index == 2 {
            Some(IntegerType::I32)
        } else if index == 3 {
            Some(IntegerType::I64)
        } else if index == 4 {
            Some(IntegerType::I128)
        } else if index == 5 {
            Some(IntegerType::U8)
        } else if index == 6 {
            Some(IntegerType::U16)
        } else if index == 7 {
            Some(IntegerType::U32)
        } else if index == 8 {
            Some(IntegerType::U64)
        } else if index == 9 {
            Some(IntegerType::U128)
        } else {
            None
        }
    }

    /// The width of the type in bytes.
    pub open spec fn bytes_spec(self) -> nat {
        self.bits_spec() / 8
    }

    /// The number that stands for the type in bytes.
    pub fn index(self) -> (r: u8)
        ensures
            r == self.index_spec(),
            Self::from_index_spec(r) == Some(self),
    {
        match self {
            IntegerType::I8 => 0,
            IntegerType::I16 => 1,
            IntegerType::I32 => 2,
            IntegerType::I64 => 3,
            IntegerType::I128 => 4,
            IntegerType::U8 => 5,
            IntegerType::U16 => 6,
            IntegerType::U32 => 7,
            IntegerType::U64 => 8,
            IntegerType::U128 => 9,
        }
    }

    /// The type that a number stands for in bytes.
    pub fn from_index(index: u8) -> (r: Option<IntegerType>)
        ensures
            r == Self::from_index_spec(index),
            r matches Some(ty) ==> ty.index_spec() == index,
    {
        if index == 0 {
            Some(IntegerType::I8)
        } else if index == 1 {
            Some(IntegerType::I16)
        } else if index == 2 {
            Some(IntegerType::I32)
        } else if index == 3 {
            Some(IntegerType::I64)
        } else if index == 4 {
            Some(IntegerType::I128)
        } else if index == 5 {
            Some(IntegerType::U8)
        } else if index == 6 {
            Some(IntegerType::U16)
        } else if index == 7 {
            Some(IntegerType::U32)
        } else if index == 8 {
            Some(IntegerType::U64)
        } else if index == 9 {
            Some(IntegerType::U128)
        } else {
            None
        }
    }

    /// The width of the type in bytes.
    pub fn bytes(self) -> (r: usize)
        ensures
            r == self.bytes_spec(),
            1 <= r <= 16,
            crate::codec::byte_range(r as nat) == pow2(self.bits_spec()),
    {
        proof {
            lemma_byte_ranges();
            lemma_width_moduli();
        }
        self.bits() / 8
    }

    /// The width of the type in bits.
    pub fn bits(self) -> (r: usize)
        ensures
            r == self.bits_spec(),
            is_integer_width(r as nat),
    {
        match self {
            IntegerType::I8 | IntegerType::U8 => 8,
            IntegerType::I16 | IntegerType::U16 => 16,
            IntegerType::I32 | IntegerType::U32 => 32,
            IntegerType::I64 | IntegerType::U64 => 64,
            IntegerType::I128 | IntegerType::U128 => 128,
        }
    }

    /// Whether the type is signed.
    pub fn is_signed(self) -> (r: bool)
        ensures
            r == self.signed_spec(),
    {
        match self {
            IntegerType::I8 | IntegerType::I16 | IntegerType::I32 | IntegerType::I64
            | IntegerType::I128 => true,
            _ => false,
        }
    }

    /// Reads the integer type whose name stands at `at` in a text, and
    /// where the name ends.
    pub fn parse(input: &[u8], at: usize) -> (r: Option<(IntegerType, usize)>)
        requires
            at <= input@.len(),
        ensures
            match r {
                Some((ty, end)) => parse_integer_type(input@, at as int) == Some((ty, end as int))
                    && at < end <= input@.len(),
                None => parse_integer_type(input@, at as int) is None,
            },
    {
        proof {
            reveal_strlit("i8");
            reveal_strlit("i16");
            reveal_strlit("i32");
            reveal_strlit("i64");
            reveal_strlit("i128");
            reveal_strlit("u8");
            reveal_strlit("u16");
            reveal_strlit("u32");
            reveal_strlit("u64");
            reveal_strlit("u128");
        }
        let length: usize = input.len();
        assert(length == input@.len());
        if starts_with(input, at, "i8") {
            Some((IntegerType::I8, at + 2))
        } else if starts_with(input, at, "i16") {
            Some((IntegerType::I16, at + 3))
        } else if starts_with(input, at, "i32") {
            Some((IntegerType::I32, at + 3))
        } else if starts_with(input, at, "i64") {
            Some((IntegerType::I64, at + 3))
        } else if starts_with(input, at, "i128") {
            Some((IntegerType::I128, at + 4))
        } else if starts_with(input, at, "u8") {
            Some((IntegerType::U8, at + 2))
        } else if starts_with(input, at, "u16") {
            Some((IntegerType::U16, at + 3))
        } else if starts_with(input, at, "u32") {
            Some((IntegerType::U32, at + 3))
        } else if starts_with(input, at, "u64") {
            Some((IntegerType::U64, at + 3))
        } else if starts_with(input, at, "u128") {
            Some((IntegerType::U128, at + 4))
        } else {
            None
        }
    }

    /// Appends the name of the type.
    pub fn write_text(self, out: &mut Vec<u8>)
        ensures
            final(out)@ == old(out)@ + ascii(self.name()),
            all_ascii(ascii(self.name())),
            1 <= ascii(self.name()).len() <= 4,
            ascii(self.name())[0] == 0x69 || ascii(self.name())[0] == 0x75,
    {
        proof {
            reveal_strlit("i8");
            reveal_strlit("i16");
            reveal_strlit("i32");
            reveal_strlit("i64");
            reveal_strlit("i128");
            reveal_strlit("u8");
            reveal_strlit("u16");
            reveal_strlit("u32");
            reveal_strlit("u64");
            reveal_strlit("u128");
        }
        match self {
            IntegerType::I8 => push_str(out, "i8"),
            IntegerType::I16 => push_str(out, "i16"),
            IntegerType::I32 => push_str(out, "i32"),
            IntegerType::I64 => push_str(out, "i64"),
            IntegerType::I128 => push_str(out, "i128"),
            IntegerType::U8 => push_str(out, "u8"),
            IntegerType::U16 => push_str(out, "u16"),
            IntegerType::U32 => push_str(out, "u32"),
            IntegerType::U64 => push_str(out, "u64"),
            IntegerType::U128 => push_str(out, "u128"),
        }
    }
}

/// The types that a literal can have.
#[derive(Clone, Copy, Debug, PartialEq, Eq, Hash, Structural)]
pub enum LiteralType {
    Address,
    Boolean,
    Field,
    Group,
    Integer(IntegerType),
    Scalar,
    String,
}

impl LiteralType {
    /// The name of the type.
    pub open spec fn name(self) -> Seq<char> {
        match self {
            LiteralType::Address => "address"@,
            LiteralType::Boolean => "boolean"@,
            LiteralType::Field => "field"@,
            LiteralType::Group => "group"@,
            LiteralType::Integer(integer) => integer.name(),
            LiteralType::Scalar => "scalar"@,
            LiteralType::String => "string"@,
        }
    }

    /// Appends the name of the type.
    pub fn write_text(self, out: &mut Vec<u8>)
        ensures
            final(out)@ == old(out)@ + ascii(self.name()),
            all_ascii(ascii(self.name())),
    {
        proof {
            reveal_strlit("address");
            reveal_strlit("boolean");
            reveal_strlit("field");
            reveal_strlit("group");
            reveal_strlit("scalar");
            reveal_strlit("string");
        }
        match self {
            LiteralType::Address => push_str(out, "address"),
            LiteralType::Boolean => push_str(out, "boolean"),
            LiteralType::Field => push_str(out, "field"),
            LiteralType::Group => push_str(out, "group"),
            LiteralType::Integer(integer) => integer.write_text(out),
            LiteralType::Scalar => push_str(out, "scalar"),
            LiteralType::String => push_str(out, "string"),
        }
    }

    /// The value as it is written.
    pub fn to_string(self) -> (r: String)
        ensures
            r@ == chars_of(ascii(self.name())),
    {
        let mut out: Vec<u8> = Vec::new();
        self.write_text(&mut out);
        assert(out@ =~= ascii(self.name()));
        string_from_ascii(out)
    }
}

/// The integer type whose name stands at `at` in a text, and where the name
/// ends.
pub open spec fn parse_integer_type(bytes: Seq<u8>, at: int) -> Option<(IntegerType, int)> {
    if tag_at(bytes, at, ascii("i8"@)) {
        Some((IntegerType::I8, at + 2))
    } else if tag_at(bytes, at, ascii("i16"@)) {
        Some((IntegerType::I16, at + 3))
    } else if tag_at(bytes, at, ascii("i32"@)) {
        Some((IntegerType::I32, at + 3))
    } else if tag_at(bytes, at, ascii("i64"@)) {
        Some((IntegerType::I64, at + 3))
    } else if tag_at(bytes, at, ascii("i128"@)) {
        Some((IntegerType::I128, at + 4))
    } else if tag_at(bytes, at, ascii("u8"@)) {
        Some((IntegerType::U8, at + 2))
    } else if tag_at(bytes, at, ascii("u16"@)) {
        Some((IntegerType::U16, at + 3))
    } else if tag_at(bytes, at, ascii("u32"@)) {
        Some((IntegerType::U32, at + 3))
    } else if tag_at(bytes, at, ascii("u64"@)) {
        Some((IntegerType::U64, at + 3))
    } else if tag_at(bytes, at, ascii("u128"@)) {
        Some((IntegerType::U128, at + 4))
    } else {
        None
    }
}

/// The literal of the given type and sign with the given absolute value,
/// where the type has such a value. Minus zero is zero.
pub open spec fn integer_from_parts(ty: IntegerType, negative: bool, magnitude: nat) -> Option<
    IntegerLiteral,
> {
    let range = pow2(ty.bits_spec());
    if negative {
        if ty.signed_spec() && 2 * magnitude <= range {
            Some(
                IntegerLiteral {
                    ty,
                    pattern: if magnitude == 0 {
                        0
                    } else {
                        (range - magnitude) as u128
                    },
                },
            )
        } else {
            None
        }
    } else if (ty.signed_spec() && 2 * magnitude < range) || (!ty.signed_spec() && magnitude
        < range) {
        Some(IntegerLiteral { ty, pattern: magnitude as u128 })
    } else {
        None
    }
}

/// The integer literal that stands at `at` in a text, and where it ends: a
/// minus sign or none, digits, and the name of a type that has the value.
pub open spec fn parse_integer(bytes: Seq<u8>, at: int) -> Option<(IntegerLiteral, int)> {
    let negative = 0 <= at < bytes.len() && bytes[at] == 0x2d;
    let start = if negative {
        at + 1
    } else {
        at
    };
    let digits = bytes.subrange(start, digits_end(bytes, start));
    if start < 0 || start > bytes.len() || digits.len() == 0 {
        None
    } else {
        match parse_integer_type(bytes, digits_end(bytes, start)) {
            None => None,
            Some((ty, end)) => match integer_from_parts(ty, negative, decimal_value(digits)) {
                None => None,
                Some(literal) => Some((literal, end)),
            },
        }
    }
}

/// An integer literal: a type and the bit pattern of a value of that type.
#[derive(Clone, Copy, Debug, PartialEq, Eq, Hash, Structural)]
pub struct IntegerLiteral {
    pub ty: IntegerType,
    pub pattern: u128,
}

impl IntegerLiteral {
    /// The pattern fits the type.
    pub open spec fn wf(self) -> bool {
        self.pattern < pow2(self.ty.bits_spec())
    }

    /// Whether the value is below zero.
    pub open spec fn negative(self) -> bool {
        self.ty.signed_spec() && 2 * self.pattern >= pow2(self.ty.bits_spec())
    }

    /// The absolute value.
    pub open spec fn magnitude(self) -> nat {
        if self.negative() {
            (pow2(self.ty.bits_spec()) - self.pattern) as nat
        } else {
            self.pattern as nat
        }
    }

    /// The value.
    pub open spec fn value(self) -> int {
        if self.negative() {
            -(self.magnitude() as int)
        } else {
            self.magnitude() as int
        }
    }

    /// The literal as it is written: the value in decimal, with a minus sign
    /// where it is below zero, and the name of the type.
    pub open spec fn text(self) -> Seq<u8> {
        (if self.negative() {
            seq![0x2du8]
        } else {
            Seq::<u8>::empty()
        }) + decimal(self.magnitude()) + ascii(self.ty.name())
    }

    /// The literal of the given type with the given bit pattern, or `None`
    /// where the pattern does not fit the type.
    pub fn new(ty: IntegerType, pattern: u128) -> (r: Option<IntegerLiteral>)
        ensures
            r is Some <==> pattern < pow2(ty.bits_spec()),
            r matches Some(literal) ==> literal == (IntegerLiteral { ty, pattern }) && literal.wf(),
    {
        if crate::native::fits_width(pattern, ty.bits()) {
            Some(IntegerLiteral { ty, pattern })
        } else {
            None
        }
    }

    /// The literal of the given type and sign with the given absolute value,
    /// or `None` where the type has no such value.
    pub fn from_parts(ty: IntegerType, negative: bool, magnitude: u128) -> (r: Option<
        IntegerLiteral,
    >)
        ensures
            r == integer_from_parts(ty, negative, magnitude as nat),
            r matches Some(literal) ==> literal.wf() && literal.ty == ty && literal.magnitude()
                == magnitude && (literal.negative() <==> negative && magnitude > 0),
    {
        proof {
            lemma_width_moduli();
        }
        let bits: usize = ty.bits();
        let half: u128 = if bits == 8 {
            0x80
        } else if bits == 16 {
            0x8000
        } else if bits == 32 {
            0x8000_0000
        } else if bits == 64 {
            0x8000_0000_0000_0000
        } else {
            0x8000_0000_0000_0000_0000_0000_0000_0000
        };
        assert(2 * half == pow2(bits as nat));
        if negative {
            if !ty.is_signed() || magnitude > half {
                None
            } else if magnitude == 0 {
                Some(IntegerLiteral { ty, pattern: 0 })
            } else {
                Some(IntegerLiteral { ty, pattern: (half - magnitude) + half })
            }
        } else if ty.is_signed() {
            if magnitude >= half {
                None
            } else {
                Some(IntegerLiteral { ty, pattern: magnitude })
            }
        } else {
            if crate::native::fits_width(magnitude, bits) {
                Some(IntegerLiteral { ty, pattern: magnitude })
            } else {
                None
            }
        }
    }

    /// Reads the integer literal that stands at `at` in a text, and where
    /// it ends.
    pub fn parse(input: &[u8], at: usize) -> (r: Option<(IntegerLiteral, usize)>)
        requires
            at <= input@.len(),
        ensures
            match r {
                Some((literal, end)) => parse_integer(input@, at as int) == Some(
                    (literal, end as int),
                ) && at < end <= input@.len() && literal.wf(),
                None => parse_integer(input@, at as int) is None,
            },
    {
        let negative: bool = at < input.len() && input[at] == 0x2d;
        let start: usize = if negative {
            at + 1
        } else {
            at
        };
        let digits_to: usize = skip_digits(input, start);
        if digits_to == start {
            return None;
        }
        proof {
            lemma_runs_end(input@, start as int);
            lemma_width_moduli();
        }
        let (ty, end) = match IntegerType::parse(input, digits_to) {
            Some(read) => read,
            None => {
                return None;
            },
        };
        match read_decimal(input, start, digits_to) {
            None => None,
            Some(magnitude) => match IntegerLiteral::from_parts(ty, negative, magnitude) {
                Some(literal) => Some((literal, end)),
                None => None,
            },
        }
    }

    /// Whether the value is below zero.
    pub fn is_negative(&self) -> (r: bool)
        requires
            self.wf(),
        ensures
            r == self.negative(),
    {
        proof {
            lemma_width_moduli();
        }
        let bits: usize = self.ty.bits();
        self.ty.is_signed() && if bits == 8 {
            self.pattern >= 0x80
        } else if bits == 16 {
            self.pattern >= 0x8000
        } else if bits == 32 {
            self.pattern >= 0x8000_0000
        } else if bits == 64 {
            self.pattern >= 0x8000_0000_0000_0000
        } else {
            self.pattern >= 0x8000_0000_0000_0000_0000_0000_0000_0000
        }
    }

    /// The absolute value.
    pub fn absolute(&self) -> (r: u128)
        requires
            self.wf(),
        ensures
            r == self.magnitude(),
    {
        proof {
            lemma_width_moduli();
        }
        if !self.is_negative() {
            self.pattern
        } else {
            let bits: usize = self.ty.bits();
            if bits == 8 {
                0x100 - self.pattern
            } else if bits == 16 {
                0x1_0000 - self.pattern
            } else if bits == 32 {
                0x1_0000_0000 - self.pattern
            } else if bits == 64 {
                0x1_0000_0000_0000_0000 - self.pattern
            } else {
                (u128::MAX - self.pattern) + 1
            }
        }
    }

    /// Appends the literal as it is written.
    pub fn write_text(&self, out: &mut Vec<u8>)
        requires
            self.wf(),
        ensures
            final(out)@ == old(out)@ + self.text(),
            all_ascii(self.text()),
    {
        let ghost before = out@;
        if self.is_negative() {
            out.push(0x2d);
        }
        push_decimal(out, self.absolute());
        self.ty.write_text(out);
        proof {
            lemma_decimal(self.magnitude());
            assert(out@ =~= before + self.text());
        }
    }
}

/// A byte of the alphabet that addresses are written in: the lower-case
/// letters and the digits, without `1`, `b`, `i` and `o`.
pub open spec fn is_address_byte(byte: u8) -> bool {
    (is_digit(byte) || (0x61 <= byte <= 0x7a)) && byte != 0x31 && byte != 0x62 && byte != 0x69
        && byte != 0x6f
}

/// The length of an address as it is written.
pub const ADDRESS_BYTES: usize = 63;

/// Whether the bytes have the form of an address: `aleo1`, then 58 bytes of
/// the address alphabet.
pub open spec fn valid_address(text: Seq<u8>) -> bool {
    &&& text.len() == ADDRESS_BYTES
    &&& text[0] == 0x61
    &&& text[1] == 0x6c
    &&& text[2] == 0x65
    &&& text[3] == 0x6f
    &&& text[4] == 0x31
    &&& forall|i: int| 5 <= i < text.len() ==> is_address_byte(#[trigger] text[i])
}

/// Whether the byte is of the alphabet that addresses are written in.
pub fn address_byte_of(byte: u8) -> (r: bool)
    ensures
        r == is_address_byte(byte),
{
    ((0x30 <= byte && byte <= 0x39) || (0x61 <= byte && byte <= 0x7a)) && byte != 0x31 && byte
        != 0x62 && byte != 0x69 && byte != 0x6f
}

/// Where the address bytes that start at `at` end.
pub open spec fn address_end(bytes: Seq<u8>, at: int) -> int
    decreases bytes.len() - at,
{
    if 0 <= at < bytes.len() && is_address_byte(bytes[at]) {
        address_end(bytes, at + 1)
    } else {
        at
    }
}

/// The address that stands at `at` in a text, and where it ends: `aleo1`
/// and all the bytes of the address alphabet that follow it, which must be
/// 58.
pub open spec fn parse_address(bytes: Seq<u8>, at: int) -> Option<(Seq<u8>, int)> {
    if tag_at(bytes, at, ascii("aleo1"@)) && address_end(bytes, at + 5) == at + ADDRESS_BYTES {
        Some((bytes.subrange(at, at + ADDRESS_BYTES), at + ADDRESS_BYTES))
    } else {
        None
    }
}

/// The boolean that stands at `at` in a text, and where it ends.
pub open spec fn parse_boolean(bytes: Seq<u8>, at: int) -> Option<(bool, int)> {
    if tag_at(bytes, at, ascii("true"@)) {
        Some((true, at + 4))
    } else if tag_at(bytes, at, ascii("false"@)) {
        Some((false, at + 5))
    } else {
        None
    }
}

/// An address, kept as it is written. Only the form is checked: that the
/// text stands for a point of the curve is for the caller that derives keys.
#[derive(Debug, PartialEq, Eq, Hash)]
pub struct Address {
    text: Vec<u8>,
}

impl View for Address {
    type V = Seq<u8>;

    closed spec fn view(&self) -> Seq<u8> {
        self.text@
    }
}

impl Address {
    #[verifier::type_invariant]
    spec fn well_formed(&self) -> bool {
        valid_address(self.text@)
    }

    /// The address written as the given bytes, or `None` where they do not
    /// have the form of an address.
    pub fn new(text: &[u8]) -> (r: Option<Address>)
        ensures
            valid_address(text@) <==> r is Some,
            r matches Some(address) ==> address@ == text@,
    {
        if text.len() != ADDRESS_BYTES || text[0] != 0x61 || text[1] != 0x6c || text[2] != 0x65
            || text[3] != 0x6f || text[4] != 0x31 {
            return None;
        }
        let mut i: usize = 5;
        while i < ADDRESS_BYTES
            invariant
                5 <= i <= ADDRESS_BYTES,
                text@.len() == ADDRESS_BYTES,
                forall|j: int| 5 <= j < i ==> is_address_byte(#[trigger] text@[j]),
            decreases ADDRESS_BYTES - i,
        {
            if !address_byte_of(text[i]) {
                return None;
            }
            i = i + 1;
        }
        let mut copy: Vec<u8> = Vec::new();
        push_bytes(&mut copy, text);
        assert(copy@ =~= text@);
        Some(Address { text: copy })
    }

    /// The address written as the given text.
    pub fn from_str(text: &str) -> (r: Option<Address>)
        ensures
            valid_address(text.spec_bytes()) <==> r is Some,
            r matches Some(address) ==> address@ == text.spec_bytes(),
    {
        Address::new(text.as_bytes())
    }

    /// The address as it is written.
    pub fn text(&self) -> (r: &[u8])
        ensures
            r@ == self@,
            valid_address(self@),
            all_ascii(self@),
    {
        proof {
            use_type_invariant(self);
            assert forall|i: int| 0 <= i < self.text@.len() implies #[trigger] self.text@[i]
                < 128 by {
                if i >= 5 {
                    assert(is_address_byte(self.text@[i]));
                }
            }
        }
        self.text.as_slice()
    }

    /// Whether the two are the same.
    pub fn equals(&self, other: &Address) -> (r: bool)
        ensures
            r == (self@ == other@),
    {
        crate::identifier::bytes_equal(self.text(), other.text())
    }

    /// A copy.
    pub fn duplicate(&self) -> (r: Address)
        ensures
            r@ == self@,
    {
        proof {
            use_type_invariant(self);
        }
        let mut copy: Vec<u8> = Vec::new();
        push_bytes(&mut copy, self.text.as_slice());
        assert(copy@ =~= self.text@);
        Address { text: copy }
    }
}

impl Clone for Address {
    fn clone(&self) -> (r: Self)
        ensures
            r@ == self@,
    {
        self.duplicate()
    }
}

/// What a literal says.
pub enum LiteralView {
    Address(Seq<u8>),
    Boolean(bool),
    Integer(IntegerLiteral),
}

impl LiteralView {
    /// Whether the parts are well formed.
    pub open spec fn wf(self) -> bool {
        match self {
            LiteralView::Address(text) => valid_address(text),
            LiteralView::Boolean(_) => true,
            LiteralView::Integer(integer) => integer.wf(),
        }
    }

    /// The type of the literal.
    pub open spec fn literal_type(self) -> LiteralType {
        match self {
            LiteralView::Address(_) => LiteralType::Address,
            LiteralView::Boolean(_) => LiteralType::Boolean,
            LiteralView::Integer(integer) => LiteralType::Integer(integer.ty),
        }
    }

    /// The literal in bytes: a byte that is 0 for an address, 1 for a
    /// boolean and 2 for an integer; then the address as it is written, or
    /// the boolean in one byte, or the number of the integer type and the
    /// pattern in as many bytes as the type is wide.
    pub open spec fn encoding(self) -> Seq<u8> {
        match self {
            LiteralView::Address(text) => seq![0u8] + text,
            LiteralView::Boolean(value) => seq![1u8, if value {
                1u8
            } else {
                0u8
            }],
            LiteralView::Integer(integer) => seq![2u8, integer.ty.index_spec()] + le_bytes(
                integer.pattern as nat,
                integer.ty.bytes_spec(),
            ),
        }
    }

    /// The literal as it is written.
    pub open spec fn text(self) -> Seq<u8> {
        match self {
            LiteralView::Address(text) => text,
            LiteralView::Boolean(value) => if value {
                ascii("true"@)
            } else {
                ascii("false"@)
            },
            LiteralView::Integer(integer) => integer.text(),
        }
    }
}

/// The literal that stands at `at` in a text, and where it ends: an
/// address, or else a boolean, or else an integer.
pub open spec fn parse_literal(bytes: Seq<u8>, at: int) -> Option<(LiteralView, int)> {
    match parse_address(bytes, at) {
        Some((text, end)) => Some((LiteralView::Address(text), end)),
        None => match parse_boolean(bytes, at) {
            Some((value, end)) => Some((LiteralView::Boolean(value), end)),
            None => match parse_integer(bytes, at) {
                Some((integer, end)) => Some((LiteralView::Integer(integer), end)),
                None => None,
            },
        },
    }
}

/// The literal that the bytes from `at` hold, and where it ends.
pub open spec fn decode_literal(bytes: Seq<u8>, at: int) -> Result<(LiteralView, int), CodecError> {
    if at < 0 || at >= bytes.len() {
        Err(CodecError::UnexpectedEnd)
    } else if bytes[at] == 0 {
        if at + 1 + ADDRESS_BYTES > bytes.len() {
            Err(CodecError::UnexpectedEnd)
        } else if !valid_address(bytes.subrange(at + 1, at + 1 + ADDRESS_BYTES)) {
            Err(CodecError::InvalidAddress)
        } else {
            Ok((LiteralView::Address(bytes.subrange(at + 1, at + 1 + ADDRESS_BYTES)), at + 64))
        }
    } else if bytes[at] == 1 {
        if at + 2 > bytes.len() {
            Err(CodecError::UnexpectedEnd)
        } else if bytes[at + 1] > 1 {
            Err(CodecError::InvalidBoolean)
        } else {
            Ok((LiteralView::Boolean(bytes[at + 1] == 1), at + 2))
        }
    } else if bytes[at] == 2 {
        if at + 2 > bytes.len() {
            Err(CodecError::UnexpectedEnd)
        } else {
            match IntegerType::from_index_spec(bytes[at + 1]) {
                None => Err(CodecError::InvalidVariant),
                Some(ty) => {
                    let end = at + 2 + ty.bytes_spec();
                    if end > bytes.len() {
                        Err(CodecError::UnexpectedEnd)
                    } else {
                        Ok(
                            (
                                LiteralView::Integer(
                                    IntegerLiteral {
                                        ty,
                                        pattern: le_number(bytes.subrange(at + 2, end)) as u128,
                                    },
                                ),
                                end,
                            ),
                        )
                    }
                },
            }
        }
    } else {
        Err(CodecError::InvalidVariant)
    }
}

/// A literal: an address, a boolean or an integer.
#[derive(Clone, Debug, PartialEq, Eq, Hash)]
pub enum Literal {
    Address(Address),
    Boolean(bool),
    Integer(IntegerLiteral),
}

impl View for Literal {
    type V = LiteralView;

    open spec fn view(&self) -> LiteralView {
        match self {
            Literal::Address(address) => LiteralView::Address(address@),
            Literal::Boolean(value) => LiteralView::Boolean(*value),
            Literal::Integer(integer) => LiteralView::Integer(*integer),
        }
    }
}

impl Literal {
    /// The type of the literal.
    pub fn to_type(&self) -> (r: LiteralType)
        ensures
            r == self@.literal_type(),
    {
        match self {
            Literal::Address(_) => LiteralType::Address,
            Literal::Boolean(_) => LiteralType::Boolean,
            Literal::Integer(integer) => LiteralType::Integer(integer.ty),
        }
    }

    /// Whether the literal is well formed: an integer fits its type.
    pub fn is_valid(&self) -> (r: bool)
        ensures
            r == self@.wf(),
    {
        match self {
            Literal::Address(address) => {
                let _ = address.text();
                true
            },
            Literal::Boolean(_) => true,
            Literal::Integer(integer) => crate::native::fits_width(
                integer.pattern,
                integer.ty.bits(),
            ),
        }
    }

    /// Whether the two are the same.
    pub fn equals(&self, other: &Literal) -> (r: bool)
        ensures
            r == (self@ == other@),
    {
        match (self, other) {
            (Literal::Address(a), Literal::Address(b)) => a.equals(b),
            (Literal::Boolean(a), Literal::Boolean(b)) => *a == *b,
            (Literal::Integer(a), Literal::Integer(b)) => *a == *b,
            _ => false,
        }
    }

    /// A copy.
    pub fn duplicate(&self) -> (r: Literal)
        ensures
            r@ == self@,
    {
        match self {
            Literal::Address(address) => Literal::Address(address.duplicate()),
            Literal::Boolean(value) => Literal::Boolean(*value),
            Literal::Integer(integer) => Literal::Integer(*integer),
        }
    }

    /// Appends the literal as it is written.
    pub fn write_text(&self, out: &mut Vec<u8>)
        requires
            self@.wf(),
        ensures
            final(out)@ == old(out)@ + self@.text(),
            all_ascii(self@.text()),
    {
        proof {
            reveal_strlit("true");
            reveal_strlit("false");
        }
        match self {
            Literal::Address(address) => {
                push_bytes(out, address.text());
            },
            Literal::Boolean(value) => {
                if *value {
                    push_str(out, "true");
                } else {
                    push_str(out, "false");
                }
            },
            Literal::Integer(integer) => integer.write_text(out),
        }
    }

    /// The value as it is written.
    pub fn to_string(&self) -> (r: String)
        requires
            self@.wf(),
        ensures
            r@ == chars_of(self@.text()),
    {
        let mut out: Vec<u8> = Vec::new();
        self.write_text(&mut out);
        assert(out@ =~= self@.text());
        string_from_ascii(out)
    }

    /// Reads the literal that stands at `at` in a text, and where it ends.
    pub fn parse(input: &[u8], at: usize) -> (r: Option<(Literal, usize)>)
        requires
            at <= input@.len(),
        ensures
            match r {
                Some((literal, end)) => parse_literal(input@, at as int) == Some(
                    (literal@, end as int),
                ) && at < end <= input@.len() && literal@.wf(),
                None => parse_literal(input@, at as int) is None,
            },
    {
        proof {
            reveal_strlit("aleo1");
            reveal_strlit("true");
            reveal_strlit("false");
        }
        let length: usize = input.len();
        // An address.
        if starts_with(input, at, "aleo1") {
            let mut end: usize = at + 5;
            while end < length && address_byte_of(input[end])
                invariant
                    at + 5 <= end <= length,
                    length == input@.len(),
                    address_end(input@, end as int) == address_end(input@, at + 5),
                decreases length - end,
            {
                end = end + 1;
            }
            if end - at == ADDRESS_BYTES {
                proof {
                    lemma_address_end(input@, at + 5);
                    let text = input@.subrange(at as int, at + ADDRESS_BYTES);
                    assert forall|i: int| 5 <= i < text.len() implies is_address_byte(
                        #[trigger] text[i],
                    ) by {
                        assert(text[i] == input@[at + i]);
                    }
                    assert(input@.subrange(at as int, at + 5) =~= text.subrange(0, 5));
                    assert(text.subrange(0, 5)[0] == 0x61);
                    assert(text.subrange(0, 5)[1] == 0x6c);
                    assert(text.subrange(0, 5)[2] == 0x65);
                    assert(text.subrange(0, 5)[3] == 0x6f);
                    assert(text.subrange(0, 5)[4] == 0x31);
                }
                let text: &[u8] = vstd::slice::slice_subrange(input, at, at + ADDRESS_BYTES);
                match Address::new(text) {
                    Some(address) => {
                        return Some((Literal::Address(address), at + ADDRESS_BYTES));
                    },
                    None => {
                        return None;
                    },
                }
            }
        }
        // A boolean.
        if starts_with(input, at, "true") {
            return Some((Literal::Boolean(true), at + 4));
        }
        if starts_with(input, at, "false") {
            return Some((Literal::Boolean(false), at + 5));
        }
        // An integer.
        match IntegerLiteral::parse(input, at) {
            Some((integer, end)) => Some((Literal::Integer(integer), end)),
            None => None,
        }
    }

    /// Reads the literal that the text is. Nothing may follow it.
    pub fn from_str(text: &str) -> (r: Option<Literal>)
        ensures
            match r {
                Some(literal) => parse_literal(text.spec_bytes(), 0) == Some(
                    (literal@, text.spec_bytes().len() as int),
                ) && literal@.wf(),
                None => parse_literal(text.spec_bytes(), 0) matches Some((_, end)) ==> end
                    != text.spec_bytes().len(),
            },
    {
        let input: &[u8] = text.as_bytes();
        match Literal::parse(input, 0) {
            Some((literal, end)) => if end == input.len() {
                Some(literal)
            } else {
                None
            },
            None => None,
        }
    }

    /// Appends the literal in bytes.
    pub fn write_le(&self, out: &mut Vec<u8>)
        ensures
            final(out)@ == old(out)@ + self@.encoding(),
    {
        let ghost before = out@;
        match self {
            Literal::Address(address) => {
                out.push(0);
                push_bytes(out, address.text());
            },
            Literal::Boolean(value) => {
                out.push(1);
                out.push(
                    if *value {
                        1
                    } else {
                        0
                    },
                );
            },
            Literal::Integer(integer) => {
                out.push(2);
                out.push(integer.ty.index());
                write_le(out, integer.pattern, integer.ty.bytes());
            },
        }
        assert(out@ =~= before + self@.encoding());
    }

    /// Reads the literal that the bytes from `at` hold, and where it ends.
    pub fn read_le(input: &[u8], at: usize) -> (r: Result<(Literal, usize), CodecError>)
        ensures
            match r {
                Ok((literal, end)) => decode_literal(input@, at as int) == Ok::<
                    (LiteralView, int),
                    CodecError,
                >((literal@, end as int)) && at < end <= input@.len() && literal@.wf(),
                Err(error) => decode_literal(input@, at as int) == Err::<
                    (LiteralView, int),
                    CodecError,
                >(error),
            },
    {
        let length: usize = input.len();
        if at >= length {
            return Err(CodecError::UnexpectedEnd);
        }
        let variant: u8 = input[at];
        if variant == 0 {
            if ADDRESS_BYTES > length - at - 1 {
                return Err(CodecError::UnexpectedEnd);
            }
            let text: &[u8] = vstd::slice::slice_subrange(input, at + 1, at + 1 + ADDRESS_BYTES);
            match Address::new(text) {
                Some(address) => Ok((Literal::Address(address), at + 1 + ADDRESS_BYTES)),
                None => Err(CodecError::InvalidAddress),
            }
        } else if variant == 1 {
            if length - at < 2 {
                return Err(CodecError::UnexpectedEnd);
            }
            let value: u8 = input[at + 1];
            if value > 1 {
                return Err(CodecError::InvalidBoolean);
            }
            Ok((Literal::Boolean(value == 1), at + 2))
        } else if variant == 2 {
            if length - at < 2 {
                return Err(CodecError::UnexpectedEnd);
            }
            let ty: IntegerType = match IntegerType::from_index(input[at + 1]) {
                Some(ty) => ty,
                None => {
                    return Err(CodecError::InvalidVariant);
                },
            };
            let width: usize = ty.bytes();
            match read_le(input, at + 2, width) {
                Some(pattern) => {
                    proof {
                        lemma_le_number(input@.subrange(at + 2, at + 2 + width));
                    }
                    Ok((Literal::Integer(IntegerLiteral { ty, pattern }), at + 2 + width))
                },
                None => Err(CodecError::UnexpectedEnd),
            }
        } else {
            Err(CodecError::InvalidVariant)
        }
    }
}

/// The name of an integer type that was written is read back from the
/// text, whatever stands before and after it.
#[verifier::rlimit(40)]
pub proof fn lemma_integer_type_text_round_trip(before: Seq<u8>, ty: IntegerType, after: Seq<u8>)
    ensures
        parse_integer_type(before + ascii(ty.name()) + after, before.len() as int) == Some(
            (ty, (before.len() + ascii(ty.name()).len()) as int),
        ),
        2 <= ascii(ty.name()).len() <= 4,
        !is_digit(ascii(ty.name())[0]),
{
    reveal_strlit("i8");
    reveal_strlit("i16");
    reveal_strlit("i32");
    reveal_strlit("i64");
    reveal_strlit("i128");
    reveal_strlit("u8");
    reveal_strlit("u16");
    reveal_strlit("u32");
    reveal_strlit("u64");
    reveal_strlit("u128");
    let bytes = before + ascii(ty.name()) + after;
    let at = before.len() as int;
    let name = ascii(ty.name());
    lemma_tag_match(before, name, after);
    assert forall|i: int| 0 <= i < name.len() implies bytes[at + i] == name[i] by {}
    assert(bytes[at] == name[0]);
    assert(bytes[at + 1] == name[1]);
    if name.len() > 2 {
        assert(bytes[at + 2] == name[2]);
    }
    match ty {
        IntegerType::I8 => {},
        IntegerType::I16 => {
            lemma_tag_mismatch(bytes, at, ascii("i8"@), 1);
        },
        IntegerType::I32 => {
            lemma_tag_mismatch(bytes, at, ascii("i8"@), 1);
            lemma_tag_mismatch(bytes, at, ascii("i16"@), 1);
        },
        IntegerType::I64 => {
            lemma_tag_mismatch(bytes, at, ascii("i8"@), 1);
            lemma_tag_mismatch(bytes, at, ascii("i16"@), 1);
            lemma_tag_mismatch(bytes, at, ascii("i32"@), 1);
        },
        IntegerType::I128 => {
            lemma_tag_mismatch(bytes, at, ascii("i8"@), 1);
            lemma_tag_mismatch(bytes, at, ascii("i16"@), 2);
            lemma_tag_mismatch(bytes, at, ascii("i32"@), 1);
            lemma_tag_mismatch(bytes, at, ascii("i64"@), 1);
        },
        IntegerType::U8 => {
            lemma_tag_mismatch(bytes, at, ascii("i8"@), 0);
            lemma_tag_mismatch(bytes, at, ascii("i16"@), 0);
            lemma_tag_mismatch(bytes, at, ascii("i32"@), 0);
            lemma_tag_mismatch(bytes, at, ascii("i64"@), 0);
            lemma_tag_mismatch(bytes, at, ascii("i128"@), 0);
        },
        IntegerType::U16 => {
            lemma_tag_mismatch(bytes, at, ascii("i8"@), 0);
            lemma_tag_mismatch(bytes, at, ascii("i16"@), 0);
            lemma_tag_mismatch(bytes, at, ascii("i32"@), 0);
            lemma_tag_mismatch(bytes, at, ascii("i64"@), 0);
            lemma_tag_mismatch(bytes, at, ascii("i128"@), 0);
            lemma_tag_mismatch(bytes, at, ascii("u8"@), 1);
        },
        IntegerType::U32 => {
            lemma_tag_mismatch(bytes, at, ascii("i8"@), 0);
            lemma_tag_mismatch(bytes, at, ascii("i16"@), 0);
            lemma_tag_mismatch(bytes, at, ascii("i32"@), 0);
            lemma_tag_mismatch(bytes, at, ascii("i64"@), 0);
            lemma_tag_mismatch(bytes, at, ascii("i128"@), 0);
            lemma_tag_mismatch(bytes, at, ascii("u8"@), 1);
            lemma_tag_mismatch(bytes, at, ascii("u16"@), 1);
        },
        IntegerType::U64 => {
            lemma_tag_mismatch(bytes, at, ascii("i8"@), 0);
            lemma_tag_mismatch(bytes, at, ascii("i16"@), 0);
            lemma_tag_mismatch(bytes, at, ascii("i32"@), 0);
            lemma_tag_mismatch(bytes, at, ascii("i64"@), 0);
            lemma_tag_mismatch(bytes, at, ascii("i128"@), 0);
            lemma_tag_mismatch(bytes, at, ascii("u8"@), 1);
            lemma_tag_mismatch(bytes, at, ascii("u16"@), 1);
            lemma_tag_mismatch(bytes, at, ascii("u32"@), 1);
        },
        IntegerType::U128 => {
            lemma_tag_mismatch(bytes, at, ascii("i8"@), 0);
            lemma_tag_mismatch(bytes, at, ascii("i16"@), 0);
            lemma_tag_mismatch(bytes, at, ascii("i32"@), 0);
            lemma_tag_mismatch(bytes, at, ascii("i64"@), 0);
            lemma_tag_mismatch(bytes, at, ascii("i128"@), 0);
            lemma_tag_mismatch(bytes, at, ascii("u8"@), 1);
            lemma_tag_mismatch(bytes, at, ascii("u16"@), 2);
            lemma_tag_mismatch(bytes, at, ascii("u32"@), 1);
            lemma_tag_mismatch(bytes, at, ascii("u64"@), 1);
        },
    }
}

/// An integer literal that was written is read back from the text,
/// whatever stands before and after it.
#[verifier::rlimit(40)]
pub proof fn lemma_integer_text_round_trip(before: Seq<u8>, literal: IntegerLiteral, after: Seq<u8>)
    requires
        literal.wf(),
    ensures
        parse_integer(before + literal.text() + after, before.len() as int) == Some(
            (literal, (before.len() + literal.text().len()) as int),
        ),
        literal.text().len() >= 1,
        literal.text()[0] == 0x2d || is_digit(literal.text()[0]),
{
    let bytes = before + literal.text() + after;
    let at = before.len() as int;
    let number = decimal(literal.magnitude());
    let name = ascii(literal.ty.name());
    let sign = if literal.negative() {
        seq![0x2du8]
    } else {
        Seq::<u8>::empty()
    };
    let start = at + sign.len();
    let digits_to = start + number.len();
    lemma_decimal(literal.magnitude());
    lemma_width_moduli();
    assert(bytes =~= (before + sign + number) + name + after);
    lemma_integer_type_text_round_trip(before + sign + number, literal.ty, after);
    assert(literal.text() =~= sign + number + name);
    assert(is_digit(number[0]));
    assert(bytes[at] == literal.text()[0]);
    assert(bytes[at] == 0x2d <==> literal.negative());
    assert forall|i: int| start <= i < digits_to implies is_digit(#[trigger] bytes[i]) by {
        assert(bytes[i] == number[i - start]);
    }
    assert(bytes[digits_to] == name[0]);
    lemma_digits_end_of(bytes, start, digits_to);
    assert(bytes.subrange(start, digits_to) =~= number);
    assert(integer_from_parts(literal.ty, literal.negative(), literal.magnitude()) == Some(
        literal,
    ));
}

/// A run of address bytes ends within the bytes, and holds address bytes
/// only.
pub proof fn lemma_address_end(bytes: Seq<u8>, at: int)
    requires
        0 <= at <= bytes.len(),
    ensures
        at <= address_end(bytes, at) <= bytes.len(),
        forall|i: int| at <= i < address_end(bytes, at) ==> is_address_byte(#[trigger] bytes[i]),
    decreases bytes.len() - at,
{
    if at < bytes.len() {
        lemma_address_end(bytes, at + 1);
    }
}

/// Address bytes that are followed by none end where they end.
pub proof fn lemma_address_end_of(bytes: Seq<u8>, at: int, end: int)
    requires
        0 <= at <= end <= bytes.len(),
        forall|i: int| at <= i < end ==> is_address_byte(#[trigger] bytes[i]),
        end == bytes.len() || !is_address_byte(bytes[end]),
    ensures
        address_end(bytes, at) == end,
    decreases end - at,
{
    if at < end {
        lemma_address_end_of(bytes, at + 1, end);
    }
}

/// A literal that was written is read back from the text, whatever stands
/// before it, as long as a blank or nothing follows it.
#[verifier::rlimit(40)]
pub proof fn lemma_literal_text_round_trip(before: Seq<u8>, literal: LiteralView, after: Seq<u8>)
    requires
        literal.wf(),
        blank_or_end(after),
    ensures
        parse_literal(before + literal.text() + after, before.len() as int) == Some(
            (literal, (before.len() + literal.text().len()) as int),
        ),
        literal.text().len() >= 1,
        !is_space(literal.text()[0]),
{
    reveal_strlit("aleo1");
    reveal_strlit("true");
    reveal_strlit("false");
    let bytes = before + literal.text() + after;
    let at = before.len() as int;
    let text = literal.text();
    assert(bytes[at] == text[0]);
    match literal {
        LiteralView::Address(address) => {
            let end = at + ADDRESS_BYTES;
            assert(bytes.subrange(at, end) =~= address);
            assert(bytes.subrange(at, at + 5) =~= ascii("aleo1"@)) by {
                assert(bytes[at] == address[0]);
                assert(bytes[at + 1] == address[1]);
                assert(bytes[at + 2] == address[2]);
                assert(bytes[at + 3] == address[3]);
                assert(bytes[at + 4] == address[4]);
            }
            assert forall|i: int| at + 5 <= i < end implies is_address_byte(
                #[trigger] bytes[i],
            ) by {
                assert(bytes[i] == address[i - at]);
            }
            if end < bytes.len() {
                assert(bytes[end] == after[0]);
            }
            lemma_address_end_of(bytes, at + 5, end);
        },
        LiteralView::Boolean(value) => {
            lemma_tag_mismatch(bytes, at, ascii("aleo1"@), 0);
            lemma_tag_match(before, text, after);
            if !value {
                lemma_tag_mismatch(bytes, at, ascii("true"@), 0);
            }
        },
        LiteralView::Integer(integer) => {
            lemma_integer_text_round_trip(before, integer, after);
            lemma_tag_mismatch(bytes, at, ascii("aleo1"@), 0);
            lemma_tag_mismatch(bytes, at, ascii("true"@), 0);
            lemma_tag_mismatch(bytes, at, ascii("false"@), 0);
        },
    }
}

/// A literal that was written is read back, whatever stands before and
/// after it.
#[verifier::rlimit(40)]
pub proof fn lemma_literal_round_trip(before: Seq<u8>, literal: LiteralView, after: Seq<u8>)
    requires
        literal.wf(),
    ensures
        decode_literal(before + literal.encoding() + after, before.len() as int) == Ok::<
            (LiteralView, int),
            CodecError,
        >((literal, (before.len() + literal.encoding().len()) as int)),
{
    let bytes = before + literal.encoding() + after;
    let at = before.len() as int;
    match literal {
        LiteralView::Address(text) => {
            assert(bytes[at] == 0);
            assert(bytes.subrange(at + 1, at + 1 + ADDRESS_BYTES) =~= text);
        },
        LiteralView::Boolean(value) => {
            assert(bytes[at] == 1);
            assert(bytes[at + 1] == literal.encoding()[1]);
        },
        LiteralView::Integer(integer) => {
            assert(bytes[at] == 2);
            assert(bytes[at + 1] == literal.encoding()[1]);
            let width = integer.ty.bytes_spec();
            lemma_byte_ranges();
            lemma_width_moduli();
            lemma_le_bytes(integer.pattern as nat, width);
            assert(bytes.subrange(at + 2, at + 2 + width) =~= le_bytes(
                integer.pattern as nat,
                width,
            ));
        },
    }
}

} // verus!

//! The types of values: of plaintexts, and of what a register holds.

use crate::identifier::Identifier;
use crate::literal::LiteralType;
use crate::locator::{Locator, LocatorView};
use crate::text::{all_ascii, ascii, chars_of, push_str, string_from_ascii};
use vstd::prelude::*;

verus! {

/// What a plaintext type says.
pub enum PlaintextTypeView {
    Literal(LiteralType),
    Struct(Seq<u8>),
}

impl PlaintextTypeView {
    /// The type as it is written: the name of the literal type, or the name
    /// of the struct.
    pub open spec fn text(self) -> Seq<u8> {
        match self {
            PlaintextTypeView::Literal(literal) => ascii(literal.name()),
            PlaintextTypeView::Struct(name) => name,
        }
    }
}

/// The type of a plaintext: a literal type, or a struct by its name.
#[derive(Clone, Debug, PartialEq, Eq, Hash)]
pub enum PlaintextType {
    Literal(LiteralType),
    Struct(Identifier),
}

impl View for PlaintextType {
    type V = PlaintextTypeView;

    open spec fn view(&self) -> PlaintextTypeView {
        match self {
            PlaintextType::Literal(literal) => PlaintextTypeView::Literal(*literal),
            PlaintextType::Struct(name) => PlaintextTypeView::Struct(name@),
        }
    }
}

impl PlaintextType {
    /// Whether the two are the same.
    pub fn equals(&self, other: &PlaintextType) -> (r: bool)
        ensures
            r == (self@ == other@),
    {
        match (self, other) {
            (PlaintextType::Literal(a), PlaintextType::Literal(b)) => *a == *b,
            (PlaintextType::Struct(a), PlaintextType::Struct(b)) => a.equals(b),
            _ => false,
        }
    }

    /// A copy.
    pub fn duplicate(&self) -> (r: PlaintextType)
        ensures
            r@ == self@,
    {
        match self {
            PlaintextType::Literal(literal) => PlaintextType::Literal(*literal),
            PlaintextType::Struct(name) => PlaintextType::Struct(name.duplicate()),
        }
    }

    /// Appends the type as it is written.
    pub fn write_text(&self, out: &mut Vec<u8>)
        ensures
            final(out)@ == old(out)@ + self@.text(),
            all_ascii(self@.text()),
    {
        match self {
            PlaintextType::Literal(literal) => literal.write_text(out),
            PlaintextType::Struct(name) => {
                let _ = name.name();
                name.write_text(out);
            },
        }
    }
}

/// What a register type says.
pub enum RegisterTypeView {
    Plaintext(PlaintextTypeView),
    Record(Seq<u8>),
    ExternalRecord(LocatorView),
}

impl RegisterTypeView {
    /// The type as it is written: a plaintext type as it is; a record as
    /// its name and `.record`; a record of another program as its locator
    /// and `.record`.
    pub open spec fn text(self) -> Seq<u8> {
        match self {
            RegisterTypeView::Plaintext(plaintext) => plaintext.text(),
            RegisterTypeView::Record(name) => name + ascii(".record"@),
            RegisterTypeView::ExternalRecord(locator) => locator.text() + ascii(".record"@),
        }
    }
}

/// The type of what a register holds.
#[derive(Clone, Debug, PartialEq, Eq, Hash)]
pub enum RegisterType {
    /// A plaintext.
    Plaintext(PlaintextType),
    /// A record of this program, by its name.
    Record(Identifier),
    /// A record of another program, by its locator.
    ExternalRecord(Locator),
}

impl View for RegisterType {
    type V = RegisterTypeView;

    open spec fn view(&self) -> RegisterTypeView {
        match self {
            RegisterType::Plaintext(plaintext) => RegisterTypeView::Plaintext(plaintext@),
            RegisterType::Record(name) => RegisterTypeView::Record(name@),
            RegisterType::ExternalRecord(locator) => RegisterTypeView::ExternalRecord(locator@),
        }
    }
}

/// What a sequence of register types says.
pub open spec fn register_types_view(types: Seq<RegisterType>) -> Seq<RegisterTypeView> {
    types.map_values(|register_type: RegisterType| register_type@)
}

impl RegisterType {
    /// Whether the two are the same.
    pub fn equals(&self, other: &RegisterType) -> (r: bool)
        ensures
            r == (self@ == other@),
    {
        match (self, other) {
            (RegisterType::Plaintext(a), RegisterType::Plaintext(b)) => a.equals(b),
            (RegisterType::Record(a), RegisterType::Record(b)) => a.equals(b),
            (RegisterType::ExternalRecord(a), RegisterType::ExternalRecord(b)) => a.equals(b),
            _ => false,
        }
    }

    /// A copy.
    pub fn duplicate(&self) -> (r: RegisterType)
        ensures
            r@ == self@,
    {
        match self {
            RegisterType::Plaintext(plaintext) => RegisterType::Plaintext(plaintext.duplicate()),
            RegisterType::Record(name) => RegisterType::Record(name.duplicate()),
            RegisterType::ExternalRecord(locator) => RegisterType::ExternalRecord(
                locator.duplicate(),
            ),
        }
    }

    /// Appends the type as it is written.
    pub fn write_text(&self, out: &mut Vec<u8>)
        ensures
            final(out)@ == old(out)@ + self@.text(),
            all_ascii(self@.text()),
    {
        proof {
            reveal_strlit(".record");
        }
        let ghost before = out@;
        match self {
            RegisterType::Plaintext(plaintext) => plaintext.write_text(out),
            RegisterType::Record(name) => {
                let _ = name.name();
                name.write_text(out);
                push_str(out, ".record");
                assert(out@ =~= before + self@.text());
            },
            RegisterType::ExternalRecord(locator) => {
                locator.write_text(out);
                push_str(out, ".record");
                assert(out@ =~= before + self@.text());
            },
        }
    }

    /// The value as it is written.
    pub fn to_string(&self) -> (r: String)
        ensures
            r@ == chars_of(self@.text()),
    {
        let mut out: Vec<u8> = Vec::new();
        self.write_text(&mut out);
        assert(out@ =~= self@.text());
        string_from_ascii(out)
    }
}

} // verus!

//! Program identifiers and locators: the names by which programs and the
//! resources in them are referred to.

use crate::codec::CodecError;
use crate::identifier::{
    decode_identifier,
    identifier_encoding,
    lemma_identifier_round_trip,
    lemma_identifier_text_round_trip,
    no_identifier_byte,
    parse_identifier,
    valid_identifier,
    Identifier,
};
use crate::text::{all_ascii, chars_of, string_from_ascii};
use vstd::prelude::*;

verus! {

/// What a program identifier says: the name of the program and the network
/// it belongs to.
pub struct ProgramIDView {
    pub name: Seq<u8>,
    pub network: Seq<u8>,
}

impl ProgramIDView {
    /// Whether the parts are well formed.
    pub open spec fn wf(self) -> bool {
        valid_identifier(self.name) && valid_identifier(self.network)
    }

    /// The program identifier as it is written: `name.network`.
    pub open spec fn text(self) -> Seq<u8> {
        self.name + seq![0x2eu8] + self.network
    }

    /// The program identifier in bytes: the name, then the network.
    pub open spec fn encoding(self) -> Seq<u8> {
        identifier_encoding(self.name) + identifier_encoding(self.network)
    }
}

/// The program identifier that stands at `at` in a text, and where it
/// ends: an identifier, a dot, an identifier.
pub open spec fn parse_program_id(bytes: Seq<u8>, at: int) -> Option<(ProgramIDView, int)> {
    match parse_identifier(bytes, at) {
        None => None,
        Some((name, dot)) => if dot < bytes.len() && bytes[dot] == 0x2e {
            match parse_identifier(bytes, dot + 1) {
                None => None,
                Some((network, end)) => Some((ProgramIDView { name, network }, end)),
            }
        } else {
            None
        },
    }
}

/// The program identifier that the bytes from `at` hold, and where it ends.
pub open spec fn decode_program_id(bytes: Seq<u8>, at: int) -> Result<
    (ProgramIDView, int),
    CodecError,
> {
    match decode_identifier(bytes, at) {
        Err(error) => Err(error),
        Ok((name, next)) => match decode_identifier(bytes, next) {
            Err(error) => Err(error),
            Ok((network, end)) => Ok((ProgramIDView { name, network }, end)),
        },
    }
}

/// The identifier of a program, such as `token.aleo`.
#[derive(Clone, Debug, PartialEq, Eq, Hash)]
pub struct ProgramID {
    name: Identifier,
    network: Identifier,
}

impl View for ProgramID {
    type V = ProgramIDView;

    closed spec fn view(&self) -> ProgramIDView {
        ProgramIDView { name: self.name@, network: self.network@ }
    }
}

impl ProgramID {
    /// The identifier of the program `name` on `network`.
    pub fn new(name: Identifier, network: Identifier) -> (r: ProgramID)
        ensures
            r@ == (ProgramIDView { name: name@, network: network@ }),
            r@.wf(),
    {
        let _ = name.name();
        let _ = network.name();
        ProgramID { name, network }
    }

    /// The name of the program.
    pub fn name(&self) -> (r: &Identifier)
        ensures
            r@ == self@.name,
            self@.wf(),
    {
        let _ = self.name.name();
        let _ = self.network.name();
        &self.name
    }

    /// The network of the program.
    pub fn network(&self) -> (r: &Identifier)
        ensures
            r@ == self@.network,
            self@.wf(),
    {
        let _ = self.name.name();
        let _ = self.network.name();
        &self.network
    }

    /// Whether the two are the same.
    pub fn equals(&self, other: &ProgramID) -> (r: bool)
        ensures
            r == (self@ == other@),
    {
        self.name.equals(&other.name) && self.network.equals(&other.network)
    }

    /// A copy.
    pub fn duplicate(&self) -> (r: ProgramID)
        ensures
            r@ == self@,
    {
        ProgramID { name: self.name.duplicate(), network: self.network.duplicate() }
    }

    /// Appends the program identifier as it is written.
    pub fn write_text(&self, out: &mut Vec<u8>)
        ensures
            final(out)@ == old(out)@ + self@.text(),
            all_ascii(self@.text()),
    {
        let _ = self.name.name();
        let _ = self.network.name();
        self.name.write_text(out);
        out.push(0x2e);
        self.network.write_text(out);
        assert(final(out)@ =~= old(out)@ + self@.text());
    }

    /// The value as it is written.
    pub fn to_string(&self) -> (r: String)
        ensures
            r@ == chars_of(self@.text()),
    {
        let mut out: Vec<u8> = Vec::new();
        self.write_text(&mut out);
        assert(out@ =~= self@.text());
        string_from_ascii(out)
    }

    /// Reads the program identifier that stands at `at` in a text, and
    /// where it ends.
    pub fn parse(input: &[u8], at: usize) -> (r: Option<(ProgramID, usize)>)
        requires
            at <= input@.len(),
        ensures
            match r {
                Some((id, end)) => parse_program_id(input@, at as int) == Some((id@, end as int))
                    && at < end <= input@.len(),
                None => parse_program_id(input@, at as int) is None,
            },
    {
        let (name, dot) = match Identifier::parse(input, at) {
            Some(read) => read,
            None => {
                return None;
            },
        };
        if dot >= input.len() || input[dot] != 0x2e {
            return None;
        }
        let (network, end) = match Identifier::parse(input, dot + 1) {
            Some(read) => read,
            None => {
                return None;
            },
        };
        Some((ProgramID { name, network }, end))
    }

    /// Appends the program identifier in bytes.
    pub fn write_le(&self, out: &mut Vec<u8>)
        ensures
            final(out)@ == old(out)@ + self@.encoding(),
    {
        self.name.write_le(out);
        self.network.write_le(out);
        assert(final(out)@ =~= old(out)@ + self@.encoding());
    }

    /// Reads the program identifier that the bytes from `at` hold, and where
    /// it ends.
    pub fn read_le(input: &[u8], at: usize) -> (r: Result<(ProgramID, usize), CodecError>)
        ensures
            match r {
                Ok((id, end)) => decode_program_id(input@, at as int) == Ok::<
                    (ProgramIDView, int),
                    CodecError,
                >((id@, end as int)) && at < end <= input@.len(),
                Err(error) => decode_program_id(input@, at as int) == Err::<
                    (ProgramIDView, int),
                    CodecError,
                >(error),
            },
    {
        let (name, next) = match Identifier::read_le(input, at) {
            Ok(read) => read,
            Err(error) => {
                return Err(error);
            },
        };
        let (network, end) = match Identifier::read_le(input, next) {
            Ok(read) => read,
            Err(error) => {
                return Err(error);
            },
        };
        Ok((ProgramID { name, network }, end))
    }
}

/// What a locator says: a program and a resource in it.
pub struct LocatorView {
    pub id: ProgramIDView,
    pub resource: Seq<u8>,
}

impl LocatorView {
    /// Whether the parts are well formed.
    pub open spec fn wf(self) -> bool {
        self.id.wf() && valid_identifier(self.resource)
    }

    /// The locator as it is written: `name.network/resource`.
    pub open spec fn text(self) -> Seq<u8> {
        self.id.text() + seq![0x2fu8] + self.resource
    }

    /// The locator in bytes: the program, then the resource.
    pub open spec fn encoding(self) -> Seq<u8> {
        self.id.encoding() + identifier_encoding(self.resource)
    }
}

/// The locator that stands at `at` in a text, and where it ends: a program
/// identifier, a slash, an identifier.
pub open spec fn parse_locator(bytes: Seq<u8>, at: int) -> Option<(LocatorView, int)> {
    match parse_program_id(bytes, at) {
        None => None,
        Some((id, slash)) => if slash < bytes.len() && bytes[slash] == 0x2f {
            match parse_identifier(bytes, slash + 1) {
                None => None,
                Some((resource, end)) => Some((LocatorView { id, resource }, end)),
            }
        } else {
            None
        },
    }
}

/// The locator that the bytes from `at` hold, and where it ends.
pub open spec fn decode_locator(bytes: Seq<u8>, at: int) -> Result<(LocatorView, int), CodecError> {
    match decode_program_id(bytes, at) {
        Err(error) => Err(error),
        Ok((id, next)) => match decode_identifier(bytes, next) {
            Err(error) => Err(error),
            Ok((resource, end)) => Ok((LocatorView { id, resource }, end)),
        },
    }
}

/// A reference to a resource of another program, such as
/// `token.aleo/transfer`.
#[derive(Clone, Debug, PartialEq, Eq, Hash)]
pub struct Locator {
    id: ProgramID,
    resource: Identifier,
}

impl View for Locator {
    type V = LocatorView;

    closed spec fn view(&self) -> LocatorView {
        LocatorView { id: self.id@, resource: self.resource@ }
    }
}

impl Locator {
    /// The locator of `resource` in the program `id`.
    pub fn new(id: ProgramID, resource: Identifier) -> (r: Locator)
        ensures
            r@ == (LocatorView { id: id@, resource: resource@ }),
            r@.wf(),
    {
        let _ = id.name();
        let _ = resource.name();
        Locator { id, resource }
    }

    /// The program.
    pub fn program_id(&self) -> (r: &ProgramID)
        ensures
            r@ == self@.id,
            self@.wf(),
    {
        let _ = self.id.name();
        let _ = self.resource.name();
        &self.id
    }

    /// The resource in the program.
    pub fn resource(&self) -> (r: &Identifier)
        ensures
            r@ == self@.resource,
            self@.wf(),
    {
        let _ = self.id.name();
        let _ = self.resource.name();
        &self.resource
    }

    /// Whether the two are the same.
    pub fn equals(&self, other: &Locator) -> (r: bool)
        ensures
            r == (self@ == other@),
    {
        self.id.equals(&other.id) && self.resource.equals(&other.resource)
    }

    /// A copy.
    pub fn duplicate(&self) -> (r: Locator)
        ensures
            r@ == self@,
    {
        Locator { id: self.id.duplicate(), resource: self.resource.duplicate() }
    }

    /// Appends the locator as it is written.
    pub fn write_text(&self, out: &mut Vec<u8>)
        ensures
            final(out)@ == old(out)@ + self@.text(),
            all_ascii(self@.text()),
    {
        let _ = self.resource.name();
        self.id.write_text(out);
        out.push(0x2f);
        self.resource.write_text(out);
        assert(final(out)@ =~= old(out)@ + self@.text());
    }

    /// The value as it is written.
    pub fn to_string(&self) -> (r: String)
        ensures
            r@ == chars_of(self@.text()),
    {
        let mut out: Vec<u8> = Vec::new();
        self.write_text(&mut out);
        assert(out@ =~= self@.text());
        string_from_ascii(out)
    }

    /// Reads the locator that stands at `at` in a text, and where it ends.
    pub fn parse(input: &[u8], at: usize) -> (r: Option<(Locator, usize)>)
        requires
            at <= input@.len(),
        ensures
            match r {
                Some((locator, end)) => parse_locator(input@, at as int) == Some(
                    (locator@, end as int),
                ) && at < end <= input@.len(),
                None => parse_locator(input@, at as int) is None,
            },
    {
        let (id, slash) = match ProgramID::parse(input, at) {
            Some(read) => read,
            None => {
                return None;
            },
        };
        if slash >= input.len() || input[slash] != 0x2f {
            return None;
        }
        let (resource, end) = match Identifier::parse(input, slash + 1) {
            Some(read) => read,
            None => {
                return None;
            },
        };
        Some((Locator { id, resource }, end))
    }

    /// Appends the locator in bytes.
    pub fn write_le(&self, out: &mut Vec<u8>)
        ensures
            final(out)@ == old(out)@ + self@.encoding(),
    {
        self.id.write_le(out);
        self.resource.write_le(out);
        assert(final(out)@ =~= old(out)@ + self@.encoding());
    }

    /// Reads the locator that the bytes from `at` hold, and where it ends.
    pub fn read_le(input: &[u8], at: usize) -> (r: Result<(Locator, usize), CodecError>)
        ensures
            match r {
                Ok((locator, end)) => decode_locator(input@, at as int) == Ok::<
                    (LocatorView, int),
                    CodecError,
                >((locator@, end as int)) && at < end <= input@.len(),
                Err(error) => decode_locator(input@, at as int) == Err::<
                    (LocatorView, int),
                    CodecError,
                >(error),
            },
    {
        let (id, next) = match ProgramID::read_le(input, at) {
            Ok(read) => read,
            Err(error) => {
                return Err(error);
            },
        };
        let (resource, end) = match Identifier::read_le(input, next) {
            Ok(read) => read,
            Err(error) => {
                return Err(error);
            },
        };
        Ok((Locator { id, resource }, end))
    }
}

/// A program identifier that was written is read back from the text,
/// whatever stands before it, as long as no identifier byte follows it.
#[verifier::rlimit(40)]
pub proof fn lemma_program_id_text_round_trip(before: Seq<u8>, id: ProgramIDView, after: Seq<u8>)
    requires
        id.wf(),
        no_identifier_byte(after),
    ensures
        parse_program_id(before + id.text() + after, before.len() as int) == Some(
            (id, (before.len() + id.text().len()) as int),
        ),
{
    let bytes = before + id.text() + after;
    let dot = seq![0x2eu8];
    assert(bytes =~= before + id.name + (dot + id.network + after));
    assert(bytes =~= (before + id.name + dot) + id.network + after);
    assert((dot + id.network + after)[0] == 0x2e);
    lemma_identifier_text_round_trip(before, id.name, dot + id.network + after);
    lemma_identifier_text_round_trip(before + id.name + dot, id.network, after);
    assert(bytes[(before.len() + id.name.len()) as int] == 0x2e);
}

/// A program identifier that was written is read back, whatever stands
/// before and after it.
#[verifier::rlimit(40)]
pub proof fn lemma_program_id_round_trip(before: Seq<u8>, id: ProgramIDView, after: Seq<u8>)
    requires
        id.wf(),
    ensures
        decode_program_id(before + id.encoding() + after, before.len() as int) == Ok::<
            (ProgramIDView, int),
            CodecError,
        >((id, (before.len() + id.encoding().len()) as int)),
{
    let bytes = before + id.encoding() + after;
    let name = identifier_encoding(id.name);
    let network = identifier_encoding(id.network);
    assert(before + name + (network + after) =~= bytes);
    assert(before + name + network + after =~= bytes);
    lemma_identifier_round_trip(before, id.name, network + after);
    lemma_identifier_round_trip(before + name, id.network, after);
    assert(id.encoding().len() == name.len() + network.len());
}

/// A locator that was written is read back from the text, whatever stands
/// before it, as long as no identifier byte follows it.
#[verifier::rlimit(40)]
pub proof fn lemma_locator_text_round_trip(before: Seq<u8>, locator: LocatorView, after: Seq<u8>)
    requires
        locator.wf(),
        no_identifier_byte(after),
    ensures
        parse_locator(before + locator.text() + after, before.len() as int) == Some(
            (locator, (before.len() + locator.text().len()) as int),
        ),
{
    let bytes = before + locator.text() + after;
    let slash = seq![0x2fu8];
    let id = locator.id.text();
    assert(bytes =~= before + id + (slash + locator.resource + after));
    assert(bytes =~= (before + id + slash) + locator.resource + after);
    assert((slash + locator.resource + after)[0] == 0x2f);
    lemma_program_id_text_round_trip(before, locator.id, slash + locator.resource + after);
    lemma_identifier_text_round_trip(before + id + slash, locator.resource, after);
    assert(bytes[(before.len() + id.len()) as int] == 0x2f);
}

/// A locator that was written is read back, whatever stands before and
/// after it.
#[verifier::rlimit(40)]
pub proof fn lemma_locator_round_trip(before: Seq<u8>, locator: LocatorView, after: Seq<u8>)
    requires
        locator.wf(),
    ensures
        decode_locator(before + locator.encoding() + after, before.len() as int) == Ok::<
            (LocatorView, int),
            CodecError,
        >((locator, (before.len() + locator.encoding().len()) as int)),
{
    let bytes = before + locator.encoding() + after;
    let id = locator.id.encoding();
    let resource = identifier_encoding(locator.resource);
    assert(before + id + (resource + after) =~= bytes);
    assert(before + id + resource + after =~= bytes);
    lemma_program_id_round_trip(before, locator.id, resource + after);
    lemma_identifier_round_trip(before + id, locator.resource, after);
    assert(locator.encoding().len() == id.len() + resource.len());
}

} // verus!

//! Identifiers: the names of programs, networks, functions and members.

use crate::codec::CodecError;
use crate::text::{
    all_ascii,
    chars_of,
    digit_of,
    is_digit,
    is_letter,
    letter_of,
    push_bytes,
    string_from_ascii,
};
use vstd::prelude::*;
use vstd::string::StringSliceAdditionalSpecFns;

verus! {

/// The longest an identifier can be, in bytes.
pub const MAX_IDENTIFIER_BYTES: usize = 31;

/// A byte that can stand inside an identifier: a letter, a digit or an
/// underscore.
pub open spec fn is_identifier_byte(byte: u8) -> bool {
    is_letter(byte) || is_digit(byte) || byte == 0x5f
}

/// Whether the bytes are an identifier: a letter, then letters, digits and
/// underscores, at most `MAX_IDENTIFIER_BYTES` bytes in all.
pub open spec fn valid_identifier(name: Seq<u8>) -> bool {
    &&& 1 <= name.len() <= MAX_IDENTIFIER_BYTES
    &&& is_letter(name[0])
    &&& forall|i: int| 0 <= i < name.len() ==> is_identifier_byte(#[trigger] name[i])
}

/// Whether the byte can stand inside an identifier.
pub fn identifier_byte_of(byte: u8) -> (r: bool)
    ensures
        r == is_identifier_byte(byte),
{
    letter_of(byte) || digit_of(byte) || byte == 0x5f
}

/// An identifier.
#[derive(Debug, PartialEq, Eq, Hash)]
pub struct Identifier {
    name: Vec<u8>,
}

impl View for Identifier {
    type V = Seq<u8>;

    closed spec fn view(&self) -> Seq<u8> {
        self.name@
    }
}

impl Identifier {
    #[verifier::type_invariant]
    spec fn well_formed(&self) -> bool {
        valid_identifier(self.name@)
    }

    /// The identifier with the given name, or `None` where the name is not
    /// one.
    pub fn new(name: &[u8]) -> (r: Option<Identifier>)
        ensures
            valid_identifier(name@) <==> r is Some,
            r matches Some(identifier) ==> identifier@ == name@,
    {
        let n: usize = name.len();
        if n == 0 || n > MAX_IDENTIFIER_BYTES || !letter_of(name[0]) {
            return None;
        }
        let mut i: usize = 0;
        while i < n
            invariant
                i <= n,
                n == name@.len(),
                forall|j: int| 0 <= j < i ==> is_identifier_byte(#[trigger] name@[j]),
            decreases n - i,
        {
            if !identifier_byte_of(name[i]) {
                return None;
            }
            i = i + 1;
        }
        let mut copy: Vec<u8> = Vec::new();
        push_bytes(&mut copy, name);
        assert(copy@ =~= name@);
        Some(Identifier { name: copy })
    }

    /// The identifier written as the given text, or `None` where the text is
    /// not an identifier.
    pub fn from_str(text: &str) -> (r: Option<Identifier>)
        ensures
            valid_identifier(text.spec_bytes()) <==> r is Some,
            r matches Some(identifier) ==> identifier@ == text.spec_bytes(),
    {
        Identifier::new(text.as_bytes())
    }

    /// An identifier is always valid.
    pub fn name(&self) -> (r: &[u8])
        ensures
            r@ == self@,
            valid_identifier(self@),
            all_ascii(self@),
    {
        proof {
            use_type_invariant(self);
            assert forall|i: int| 0 <= i < self.name@.len() implies #[trigger] self.name@[i]
                < 128 by {
                assert(is_identifier_byte(self.name@[i]));
            }
        }
        self.name.as_slice()
    }

    /// Whether two identifiers are the same name.
    pub fn equals(&self, other: &Identifier) -> (r: bool)
        ensures
            r == (self@ == other@),
    {
        let a: &[u8] = self.name();
        let b: &[u8] = other.name();
        bytes_equal(a, b)
    }

    /// A copy of the identifier.
    pub fn duplicate(&self) -> (r: Identifier)
        ensures
            r@ == self@,
    {
        proof {
            use_type_invariant(self);
        }
        let mut copy: Vec<u8> = Vec::new();
        push_bytes(&mut copy, self.name.as_slice());
        assert(copy@ =~= self.name@);
        Identifier { name: copy }
    }

    /// Appends the identifier as it is written.
    pub fn write_text(&self, out: &mut Vec<u8>)
        ensures
            final(out)@ == old(out)@ + self@,
    {
        push_bytes(out, self.name.as_slice());
    }

    /// The identifier as it is written.
    pub fn to_string(&self) -> (r: String)
        ensures
            r@ == chars_of(self@),
    {
        let bytes: &[u8] = self.name();
        let mut out: Vec<u8> = Vec::new();
        push_bytes(&mut out, bytes);
        assert(out@ =~= self@);
        string_from_ascii(out)
    }
}

impl Clone for Identifier {
    fn clone(&self) -> (r: Self)
        ensures
            r@ == self@,
    {
        self.duplicate()
    }
}

/// Where the identifier bytes that start at `at` end.
pub open spec fn identifier_end(bytes: Seq<u8>, at: int) -> int
    decreases bytes.len() - at,
{
    if 0 <= at < bytes.len() && is_identifier_byte(bytes[at]) {
        identifier_end(bytes, at + 1)
    } else {
        at
    }
}

/// The identifier that stands at `at` in a text, and where it ends: a
/// letter and all the letters, digits and underscores that follow it, which
/// must not be more than an identifier can have.
pub open spec fn parse_identifier(bytes: Seq<u8>, at: int) -> Option<(Seq<u8>, int)> {
    if 0 <= at < bytes.len() && is_letter(bytes[at]) && identifier_end(bytes, at) - at
        <= MAX_IDENTIFIER_BYTES {
        Some((bytes.subrange(at, identifier_end(bytes, at)), identifier_end(bytes, at)))
    } else {
        None
    }
}

/// Nothing stands behind, or a byte that no identifier holds.
pub open spec fn no_identifier_byte(after: Seq<u8>) -> bool {
    after.len() == 0 || !is_identifier_byte(after[0])
}

/// An identifier in bytes: its length in one byte, then its name.
pub open spec fn identifier_encoding(name: Seq<u8>) -> Seq<u8> {
    seq![name.len() as u8] + name
}

/// The identifier that the bytes from `at` hold, and where it ends.
pub open spec fn decode_identifier(bytes: Seq<u8>, at: int) -> Result<(Seq<u8>, int), CodecError> {
    if at < 0 || at >= bytes.len() {
        Err(CodecError::UnexpectedEnd)
    } else {
        let end = at + 1 + bytes[at] as int;
        if end > bytes.len() {
            Err(CodecError::UnexpectedEnd)
        } else if !valid_identifier(bytes.subrange(at + 1, end)) {
            Err(CodecError::InvalidIdentifier)
        } else {
            Ok((bytes.subrange(at + 1, end), end))
        }
    }
}

impl Identifier {
    /// Reads the identifier that stands at `at` in a text, and where it
    /// ends.
    pub fn parse(input: &[u8], at: usize) -> (r: Option<(Identifier, usize)>)
        requires
            at <= input@.len(),
        ensures
            match r {
                Some((identifier, end)) => parse_identifier(input@, at as int) == Some(
                    (identifier@, end as int),
                ) && at < end <= input@.len(),
                None => parse_identifier(input@, at as int) is None,
            },
    {
        if at >= input.len() || !letter_of(input[at]) {
            return None;
        }
        let mut end: usize = at;
        while end < input.len() && identifier_byte_of(input[end])
            invariant
                at <= end <= input@.len(),
                identifier_end(input@, end as int) == identifier_end(input@, at as int),
            decreases input@.len() - end,
        {
            end = end + 1;
        }
        if end - at > MAX_IDENTIFIER_BYTES {
            return None;
        }
        proof {
            lemma_identifier_end(input@, at as int);
            let name = input@.subrange(at as int, end as int);
            assert forall|i: int| 0 <= i < name.len() implies is_identifier_byte(
                #[trigger] name[i],
            ) by {
                assert(name[i] == input@[at + i]);
            }
        }
        let name: &[u8] = vstd::slice::slice_subrange(input, at, end);
        match Identifier::new(name) {
            Some(identifier) => Some((identifier, end)),
            None => None,
        }
    }

    /// Appends the identifier in bytes.
    pub fn write_le(&self, out: &mut Vec<u8>)
        ensures
            final(out)@ == old(out)@ + identifier_encoding(self@),
    {
        let name: &[u8] = self.name();
        out.push(name.len() as u8);
        push_bytes(out, name);
        assert(final(out)@ =~= old(out)@ + identifier_encoding(self@));
    }

    /// Reads the identifier that the bytes from `at` hold, and where it
    /// ends.
    pub fn read_le(input: &[u8], at: usize) -> (r: Result<(Identifier, usize), CodecError>)
        ensures
            match r {
                Ok((identifier, end)) => decode_identifier(input@, at as int) == Ok::<
                    (Seq<u8>, int),
                    CodecError,
                >((identifier@, end as int)) && at < end <= input@.len(),
                Err(error) => decode_identifier(input@, at as int) == Err::<
                    (Seq<u8>, int),
                    CodecError,
                >(error),
            },
    {
        let length: usize = input.len();
        if at >= length {
            return Err(CodecError::UnexpectedEnd);
        }
        let size: usize = input[at] as usize;
        if size > length - at - 1 {
            return Err(CodecError::UnexpectedEnd);
        }
        let name: &[u8] = vstd::slice::slice_subrange(input, at + 1, at + 1 + size);
        match Identifier::new(name) {
            Some(identifier) => Ok((identifier, at + 1 + size)),
            None => Err(CodecError::InvalidIdentifier),
        }
    }
}

/// Whether two slices hold the same bytes.
pub fn bytes_equal(a: &[u8], b: &[u8]) -> (r: bool)
    ensures
        r == (a@ == b@),
{
    if a.len() != b.len() {
        return false;
    }
    let mut i: usize = 0;
    while i < a.len()
        invariant
            i <= a.len(),
            a@.len() == b@.len(),
            forall|j: int| 0 <= j < i ==> a@[j] == b@[j],
        decreases a.len() - i,
    {
        if a[i] != b[i] {
            return false;
        }
        i = i + 1;
    }
    assert(a@ =~= b@);
    true
}

/// A run of identifier bytes ends within the bytes, and holds identifier
/// bytes only.
pub proof fn lemma_identifier_end(bytes: Seq<u8>, at: int)
    requires
        0 <= at <= bytes.len(),
    ensures
        at <= identifier_end(bytes, at) <= bytes.len(),
        forall|i: int|
            at <= i < identifier_end(bytes, at) ==> is_identifier_byte(#[trigger] bytes[i]),
        identifier_end(bytes, at) < bytes.len() ==> !is_identifier_byte(
            bytes[identifier_end(bytes, at)],
        ),
    decreases bytes.len() - at,
{
    if at < bytes.len() {
        lemma_identifier_end(bytes, at + 1);
    }
}

/// Identifier bytes that are followed by none end where they end.
pub proof fn lemma_identifier_end_of(bytes: Seq<u8>, at: int, end: int)
    requires
        0 <= at <= end <= bytes.len(),
        forall|i: int| at <= i < end ==> is_identifier_byte(#[trigger] bytes[i]),
        end == bytes.len() || !is_identifier_byte(bytes[end]),
    ensures
        identifier_end(bytes, at) == end,
    decreases end - at,
{
    if at < end {
        lemma_identifier_end_of(bytes, at + 1, end);
    }
}

/// An identifier that was written is read back from the text, whatever
/// stands before it, as long as no identifier byte follows it.
pub proof fn lemma_identifier_text_round_trip(before: Seq<u8>, name: Seq<u8>, after: Seq<u8>)
    requires
        valid_identifier(name),
        no_identifier_byte(after),
    ensures
        parse_identifier(before + name + after, before.len() as int) == Some(
            (name, (before.len() + name.len()) as int),
        ),
{
    let bytes = before + name + after;
    let at = before.len() as int;
    let end = at + name.len();
    assert forall|i: int| at <= i < end implies is_identifier_byte(#[trigger] bytes[i]) by {
        assert(bytes[i] == name[i - at]);
    }
    assert(bytes[at] == name[0]);
    if end < bytes.len() {
        assert(bytes[end] == after[0]);
    }
    lemma_identifier_end_of(bytes, at, end);
    assert(bytes.subrange(at, end) =~= name);
}

/// An identifier that was written is read back, whatever stands before and
/// after it.
pub proof fn lemma_identifier_round_trip(before: Seq<u8>, name: Seq<u8>, after: Seq<u8>)
    requires
        valid_identifier(name),
    ensures
        decode_identifier(before + identifier_encoding(name) + after, before.len() as int) == Ok::<
            (Seq<u8>, int),
            CodecError,
        >((name, (before.len() + identifier_encoding(name).len()) as int)),
        identifier_encoding(name).len() == 1 + name.len(),
{
    let bytes = before + identifier_encoding(name) + after;
    let at = before.len() as int;
    assert(bytes[at] == name.len() as u8);
    assert(bytes.subrange(at + 1, at + 1 + name.len()) =~= name);
}

} // verus!

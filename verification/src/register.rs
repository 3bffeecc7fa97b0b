//! Registers: the places that instructions read from and write to.

use crate::codec::{
    le_bytes,
    le_number,
    lemma_byte_ranges,
    lemma_le_bytes,
    lemma_le_number,
    lemma_regroup,
    read_le,
    write_le,
    CodecError,
};
use crate::identifier::{
    decode_identifier,
    identifier_encoding,
    lemma_identifier_round_trip,
    valid_identifier,
    Identifier,
};
use crate::identifier::{
    is_identifier_byte,
    lemma_identifier_text_round_trip,
    no_identifier_byte,
    parse_identifier,
};
use crate::text::{
    all_ascii,
    blank_or_end,
    chars_of,
    decimal,
    decimal_value,
    digits_end,
    is_digit,
    lemma_decimal,
    lemma_digits_end_of,
    lemma_runs_end,
    push_decimal,
    read_decimal,
    skip_digits,
    string_from_ascii,
};
use vstd::prelude::*;
use vstd::string::StringSliceAdditionalSpecFns;

verus! {

/// What a register says: its number, and for a member of a struct the path
/// of member names that leads to it.
pub enum RegisterView {
    Locator(u64),
    Member(u64, Seq<Seq<u8>>),
}

/// A path of member names as it is written: a dot before each name.
pub open spec fn path_text(path: Seq<Seq<u8>>) -> Seq<u8>
    decreases path.len(),
{
    if path.len() == 0 {
        Seq::<u8>::empty()
    } else {
        path_text(path.drop_last()) + seq![0x2eu8] + path.last()
    }
}

/// A path of member names in bytes: the names one after another.
pub open spec fn path_encoding(path: Seq<Seq<u8>>) -> Seq<u8>
    decreases path.len(),
{
    if path.len() == 0 {
        Seq::<u8>::empty()
    } else {
        identifier_encoding(path[0]) + path_encoding(path.drop_first())
    }
}

/// The path of `count` names that the bytes from `at` hold, and where it
/// ends.
pub open spec fn decode_path(bytes: Seq<u8>, at: int, count: nat) -> Result<
    (Seq<Seq<u8>>, int),
    CodecError,
>
    decreases count,
{
    if count == 0 {
        Ok((Seq::<Seq<u8>>::empty(), at))
    } else {
        match decode_identifier(bytes, at) {
            Err(error) => Err(error),
            Ok((name, next)) => match decode_path(bytes, next, (count - 1) as nat) {
                Err(error) => Err(error),
                Ok((names, end)) => Ok((seq![name] + names, end)),
            },
        }
    }
}

/// What was read so far, put before what is read from here on.
pub open spec fn path_after(
    front: Seq<Seq<u8>>,
    rest: Result<(Seq<Seq<u8>>, int), CodecError>,
) -> Result<(Seq<Seq<u8>>, int), CodecError> {
    match rest {
        Ok((names, end)) => Ok((front + names, end)),
        Err(error) => Err(error),
    }
}

/// Every name of the path is an identifier.
pub open spec fn valid_path(path: Seq<Seq<u8>>) -> bool {
    forall|i: int| 0 <= i < path.len() ==> valid_identifier(#[trigger] path[i])
}

impl RegisterView {
    /// The number of the register.
    pub open spec fn locator(self) -> u64 {
        match self {
            RegisterView::Locator(locator) => locator,
            RegisterView::Member(locator, _) => locator,
        }
    }

    /// A member has a path of at least one name, and every name is an
    /// identifier.
    pub open spec fn wf(self) -> bool {
        match self {
            RegisterView::Locator(_) => true,
            RegisterView::Member(_, path) => path.len() >= 1 && path.len() <= u16::MAX
                && valid_path(path),
        }
    }

    /// The register in bytes: a byte that is 0 for a register and 1 for a
    /// member, the number in eight bytes, and for a member the number of
    /// names in two bytes and the names.
    pub open spec fn encoding(self) -> Seq<u8> {
        match self {
            RegisterView::Locator(locator) => seq![0u8] + le_bytes(locator as nat, 8),
            RegisterView::Member(locator, path) => seq![1u8] + le_bytes(locator as nat, 8)
                + le_bytes(path.len(), 2) + path_encoding(path),
        }
    }

    /// The register as it is written: `r`, the number, and the path.
    pub open spec fn text(self) -> Seq<u8> {
        match self {
            RegisterView::Locator(locator) => seq![0x72u8] + decimal(locator as nat),
            RegisterView::Member(locator, path) => seq![0x72u8] + decimal(locator as nat)
                + path_text(path),
        }
    }
}

/// The path of member names that stands at `at` in a text, and where it
/// ends: as many names, each behind a dot, as there are.
pub open spec fn parse_path(bytes: Seq<u8>, at: int) -> (Seq<Seq<u8>>, int)
    decreases bytes.len() - at,
{
    if 0 <= at < bytes.len() && bytes[at] == 0x2e {
        match parse_identifier(bytes, at + 1) {
            Some((name, next)) => if at < next <= bytes.len() {
                (seq![name] + parse_path(bytes, next).0, parse_path(bytes, next).1)
            } else {
                (Seq::<Seq<u8>>::empty(), at)
            },
            None => (Seq::<Seq<u8>>::empty(), at),
        }
    } else {
        (Seq::<Seq<u8>>::empty(), at)
    }
}

/// The register that stands at `at` in a text, and where it ends: `r`, a
/// number that fits in 64 bits, and a path of member names.
pub open spec fn parse_register(bytes: Seq<u8>, at: int) -> Option<(RegisterView, int)> {
    if 0 <= at < bytes.len() && bytes[at] == 0x72 {
        let digits = bytes.subrange(at + 1, digits_end(bytes, at + 1));
        if digits.len() == 0 || decimal_value(digits) > u64::MAX {
            None
        } else {
            let locator = decimal_value(digits) as u64;
            let (path, end) = parse_path(bytes, digits_end(bytes, at + 1));
            if path.len() == 0 {
                Some((RegisterView::Locator(locator), end))
            } else {
                Some((RegisterView::Member(locator, path), end))
            }
        }
    } else {
        None
    }
}

/// The register that the bytes from `at` hold, and where it ends.
pub open spec fn decode_register(bytes: Seq<u8>, at: int) -> Result<(RegisterView, int), CodecError> {
    if at < 0 || at >= bytes.len() {
        Err(CodecError::UnexpectedEnd)
    } else if bytes[at] > 1 {
        Err(CodecError::InvalidVariant)
    } else if at + 9 > bytes.len() {
        Err(CodecError::UnexpectedEnd)
    } else {
        let locator = le_number(bytes.subrange(at + 1, at + 9)) as u64;
        if bytes[at] == 0 {
            Ok((RegisterView::Locator(locator), at + 9))
        } else if at + 11 > bytes.len() {
            Err(CodecError::UnexpectedEnd)
        } else {
            let count = le_number(bytes.subrange(at + 9, at + 11));
            if count == 0 {
                Err(CodecError::EmptyPath)
            } else {
                match decode_path(bytes, at + 11, count) {
                    Err(error) => Err(error),
                    Ok((path, end)) => Ok((RegisterView::Member(locator, path), end)),
                }
            }
        }
    }
}

/// A register, such as `r0`, or a member of the struct in a register, such
/// as `r0.owner`.
#[derive(Clone, Debug, PartialEq, Eq, Hash)]
pub enum Register {
    /// A register, by its number.
    Locator(u64),
    /// A member of a register, by the number and the names that lead to the
    /// member.
    Member(u64, Vec<Identifier>),
}

/// The names of a path of identifiers.
pub open spec fn path_view(path: Seq<Identifier>) -> Seq<Seq<u8>> {
    path.map_values(|identifier: Identifier| identifier@)
}

impl View for Register {
    type V = RegisterView;

    open spec fn view(&self) -> RegisterView {
        match self {
            Register::Locator(locator) => RegisterView::Locator(*locator),
            Register::Member(locator, path) => RegisterView::Member(*locator, path_view(path@)),
        }
    }
}

/// Whether two paths hold the same names.
pub fn paths_equal(a: &Vec<Identifier>, b: &Vec<Identifier>) -> (r: bool)
    ensures
        r == (path_view(a@) == path_view(b@)),
{
    if a.len() != b.len() {
        assert(path_view(a@).len() != path_view(b@).len());
        return false;
    }
    let mut i: usize = 0;
    while i < a.len()
        invariant
            i <= a.len(),
            a@.len() == b@.len(),
            forall|j: int| 0 <= j < i ==> path_view(a@)[j] == path_view(b@)[j],
        decreases a.len() - i,
    {
        if !a[i].equals(&b[i]) {
            assert(path_view(a@)[i as int] != path_view(b@)[i as int]);
            return false;
        }
        i = i + 1;
    }
    assert(path_view(a@) =~= path_view(b@));
    true
}

/// A copy of a path.
pub fn path_duplicate(path: &Vec<Identifier>) -> (r: Vec<Identifier>)
    ensures
        path_view(r@) == path_view(path@),
        r@.len() == path@.len(),
{
    let mut copy: Vec<Identifier> = Vec::new();
    let mut i: usize = 0;
    while i < path.len()
        invariant
            i <= path.len(),
            copy@.len() == i,
            forall|j: int| 0 <= j < i ==> (#[trigger] copy@[j])@ == path@[j]@,
        decreases path.len() - i,
    {
        copy.push(path[i].duplicate());
        i = i + 1;
    }
    assert(path_view(copy@) =~= path_view(path@));
    copy
}

/// Every identifier of a path is valid.
pub(crate) fn path_is_valid(path: &Vec<Identifier>)
    ensures
        valid_path(path_view(path@)),
{
    let mut i: usize = 0;
    while i < path.len()
        invariant
            i <= path.len(),
            forall|j: int| 0 <= j < i ==> valid_identifier(#[trigger] path_view(path@)[j]),
        decreases path.len() - i,
    {
        let _ = path[i].name();
        i = i + 1;
    }
}

impl Register {
    /// The number of the register.
    pub fn locator(&self) -> (r: u64)
        ensures
            r == self@.locator(),
    {
        match self {
            Register::Locator(locator) => *locator,
            Register::Member(locator, _) => *locator,
        }
    }

    /// Whether the register is well formed: the path of a member is not
    /// empty and not longer than can be counted in sixteen bits.
    pub fn is_valid(&self) -> (r: bool)
        ensures
            r == self@.wf(),
    {
        match self {
            Register::Locator(_) => true,
            Register::Member(_, path) => {
                path_is_valid(path);
                path.len() >= 1 && path.len() <= 0xffff
            },
        }
    }

    /// Whether the two are the same.
    pub fn equals(&self, other: &Register) -> (r: bool)
        ensures
            r == (self@ == other@),
    {
        match (self, other) {
            (Register::Locator(a), Register::Locator(b)) => *a == *b,
            (Register::Member(a, path_a), Register::Member(b, path_b)) => *a == *b && paths_equal(
                path_a,
                path_b,
            ),
            _ => false,
        }
    }

    /// A copy.
    pub fn duplicate(&self) -> (r: Register)
        ensures
            r@ == self@,
    {
        match self {
            Register::Locator(locator) => Register::Locator(*locator),
            Register::Member(locator, path) => Register::Member(*locator, path_duplicate(path)),
        }
    }

    /// Appends the register as it is written.
    pub fn write_text(&self, out: &mut Vec<u8>)
        ensures
            final(out)@ == old(out)@ + self@.text(),
            all_ascii(self@.text()),
    {
        let ghost before = out@;
        out.push(0x72);
        push_decimal(out, self.locator() as u128);
        proof {
            lemma_decimal(self@.locator() as nat);
        }
        match self {
            Register::Locator(_) => {
                assert(out@ =~= before + self@.text());
            },
            Register::Member(locator, path) => {
                let ghost names = path_view(path@);
                let ghost head = before + seq![0x72u8] + decimal(*locator as nat);
                assert(out@ =~= head);
                path_is_valid(path);
                let mut i: usize = 0;
                assert(names.take(0) =~= Seq::<Seq<u8>>::empty());
                while i < path.len()
                    invariant
                        i <= path.len(),
                        names == path_view(path@),
                        out@ == head + path_text(names.take(i as int)),
                    decreases path.len() - i,
                {
                    let ghost so_far = out@;
                    out.push(0x2e);
                    path[i].write_text(out);
                    proof {
                        assert(names.take(i + 1).drop_last() =~= names.take(i as int));
                        assert(names.take(i + 1).last() == path@[i as int]@);
                        assert(out@ =~= head + path_text(names.take(i + 1)));
                    }
                    i = i + 1;
                }
                proof {
                    assert(names.take(path.len() as int) =~= names);
                    lemma_path_text_ascii(names);
                    assert(out@ =~= before + self@.text());
                }
            },
        }
    }

    /// The value as it is written.
    pub fn to_string(&self) -> (r: String)
        ensures
            r@ == chars_of(self@.text()),
    {
        let mut out: Vec<u8> = Vec::new();
        self.write_text(&mut out);
        assert(out@ =~= self@.text());
        string_from_ascii(out)
    }

    /// Reads the register that stands at `at` in a text, and where it ends.
    pub fn parse(input: &[u8], at: usize) -> (r: Option<(Register, usize)>)
        requires
            at <= input@.len(),
        ensures
            match r {
                Some((register, end)) => parse_register(input@, at as int) == Some(
                    (register@, end as int),
                ) && at < end <= input@.len(),
                None => parse_register(input@, at as int) is None,
            },
    {
        if at >= input.len() || input[at] != 0x72 {
            return None;
        }
        let digits_to: usize = skip_digits(input, at + 1);
        if digits_to == at + 1 {
            return None;
        }
        proof {
            lemma_runs_end(input@, at + 1);
        }
        let locator: u64 = match read_decimal(input, at + 1, digits_to) {
            Some(value) => {
                if value > 0xffff_ffff_ffff_ffff {
                    return None;
                }
                value as u64
            },
            None => {
                return None;
            },
        };
        let mut path: Vec<Identifier> = Vec::new();
        let mut position: usize = digits_to;
        let ghost whole = parse_path(input@, digits_to as int);
        assert(path_view(path@) + whole.0 =~= whole.0);
        loop
            invariant
                digits_to <= position <= input@.len(),
                whole == parse_path(input@, digits_to as int),
                whole.0 == path_view(path@) + parse_path(input@, position as int).0,
                whole.1 == parse_path(input@, position as int).1,
            ensures
                digits_to <= position <= input@.len(),
                whole.0 == path_view(path@),
                whole.1 == position,
            decreases input@.len() - position,
        {
            if position >= input.len() || input[position] != 0x2e {
                assert(path_view(path@) + Seq::<Seq<u8>>::empty() =~= path_view(path@));
                break;
            }
            match Identifier::parse(input, position + 1) {
                None => {
                    assert(path_view(path@) + Seq::<Seq<u8>>::empty() =~= path_view(path@));
                    break;
                },
                Some((name, next)) => {
                    proof {
                        let names = path_view(path@);
                        assert(path_view(path@.push(name)) =~= names.push(name@));
                        assert(names + (seq![name@] + parse_path(input@, next as int).0)
                            =~= names.push(name@) + parse_path(input@, next as int).0);
                    }
                    path.push(name);
                    position = next;
                },
            }
        }
        if path.len() == 0 {
            Some((Register::Locator(locator), position))
        } else {
            Some((Register::Member(locator, path), position))
        }
    }

    /// Reads the register that the text is. Nothing may follow it.
    pub fn from_str(text: &str) -> (r: Option<Register>)
        ensures
            match r {
                Some(register) => parse_register(text.spec_bytes(), 0) == Some(
                    (register@, text.spec_bytes().len() as int),
                ),
                None => parse_register(text.spec_bytes(), 0) matches Some((_, end)) ==> end
                    != text.spec_bytes().len(),
            },
    {
        let input: &[u8] = text.as_bytes();
        match Register::parse(input, 0) {
            Some((register, end)) => if end == input.len() {
                Some(register)
            } else {
                None
            },
            None => None,
        }
    }

    /// Appends the register in bytes.
    pub fn write_le(&self, out: &mut Vec<u8>)
        ensures
            final(out)@ == old(out)@ + self@.encoding(),
    {
        let ghost before = out@;
        match self {
            Register::Locator(locator) => {
                out.push(0);
                write_le(out, *locator as u128, 8);
                assert(out@ =~= before + self@.encoding());
            },
            Register::Member(locator, path) => {
                out.push(1);
                write_le(out, *locator as u128, 8);
                write_le(out, path.len() as u128, 2);
                let ghost names = path_view(path@);
                let ghost head = out@;
                let mut i: usize = 0;
                assert(names.skip(0) =~= names);
                while i < path.len()
                    invariant
                        i <= path.len(),
                        names == path_view(path@),
                        out@ + path_encoding(names.skip(i as int)) == head + path_encoding(names),
                    decreases path.len() - i,
                {
                    let ghost so_far = out@;
                    path[i].write_le(out);
                    proof {
                        assert(names.skip(i as int).drop_first() =~= names.skip(i + 1));
                        assert(names.skip(i as int)[0] == path@[i as int]@);
                        assert(out@ + path_encoding(names.skip(i + 1)) =~= so_far + path_encoding(
                            names.skip(i as int),
                        ));
                    }
                    i = i + 1;
                }
                proof {
                    assert(names.skip(path.len() as int) =~= Seq::<Seq<u8>>::empty());
                    assert(out@ =~= before + self@.encoding());
                }
            },
        }
    }

    /// Reads the register that the bytes from `at` hold, and where it ends.
    pub fn read_le(input: &[u8], at: usize) -> (r: Result<(Register, usize), CodecError>)
        ensures
            match r {
                Ok((register, end)) => decode_register(input@, at as int) == Ok::<
                    (RegisterView, int),
                    CodecError,
                >((register@, end as int)) && at < end <= input@.len(),
                Err(error) => decode_register(input@, at as int) == Err::<
                    (RegisterView, int),
                    CodecError,
                >(error),
            },
    {
        let length: usize = input.len();
        if at >= length {
            return Err(CodecError::UnexpectedEnd);
        }
        let variant: u8 = input[at];
        if variant > 1 {
            return Err(CodecError::InvalidVariant);
        }
        proof {
            lemma_byte_ranges();
        }
        let locator: u64 = match read_le(input, at + 1, 8) {
            Some(value) => {
                proof {
                    lemma_le_number(input@.subrange(at + 1, at + 9));
                }
                value as u64
            },
            None => {
                return Err(CodecError::UnexpectedEnd);
            },
        };
        if variant == 0 {
            return Ok((Register::Locator(locator), at + 9));
        }
        let count: usize = match read_le(input, at + 9, 2) {
            Some(value) => {
                proof {
                    lemma_le_number(input@.subrange(at + 9, at + 11));
                }
                value as usize
            },
            None => {
                return Err(CodecError::UnexpectedEnd);
            },
        };
        if count == 0 {
            return Err(CodecError::EmptyPath);
        }
        let mut path: Vec<Identifier> = Vec::new();
        let mut position: usize = at + 11;
        let ghost whole = decode_path(input@, at + 11, count as nat);
        assert(path_after(path_view(path@), whole) == whole) by {
            assert(path_view(path@) =~= Seq::<Seq<u8>>::empty());
            if whole is Ok {
                assert(Seq::<Seq<u8>>::empty() + whole.unwrap().0 =~= whole.unwrap().0);
            }
        }
        let mut i: usize = 0;
        while i < count
            invariant
                i <= count,
                path@.len() == i,
                at + 11 <= position <= input@.len(),
                input@[at as int] == 1,
                count > 0,
                count == le_number(input@.subrange(at + 9, at + 11)),
                whole == decode_path(input@, at + 11, count as nat),
                whole == path_after(
                    path_view(path@),
                    decode_path(input@, position as int, (count - i) as nat),
                ),
            decreases count - i,
        {
            let ghost names = path_view(path@);
            match Identifier::read_le(input, position) {
                Err(error) => {
                    assert(decode_path(input@, position as int, (count - i) as nat) == Err::<
                        (Seq<Seq<u8>>, int),
                        CodecError,
                    >(error));
                    return Err(error);
                },
                Ok((identifier, next)) => {
                    proof {
                        let rest = decode_path(input@, next as int, (count - i - 1) as nat);
                        assert(path_view(path@.push(identifier)) =~= names.push(identifier@));
                        if rest is Ok {
                            assert(names + (seq![identifier@] + rest.unwrap().0) =~= names.push(
                                identifier@,
                            ) + rest.unwrap().0);
                        }
                    }
                    path.push(identifier);
                    position = next;
                },
            }
            i = i + 1;
        }
        proof {
            assert(path_view(path@) + Seq::<Seq<u8>>::empty() =~= path_view(path@));
        }
        Ok((Register::Member(locator, path), position))
    }
}

/// A path that was written is read back, whatever stands before and after
/// it.
#[verifier::rlimit(40)]
pub proof fn lemma_path_round_trip(before: Seq<u8>, path: Seq<Seq<u8>>, after: Seq<u8>)
    requires
        valid_path(path),
    ensures
        decode_path(before + path_encoding(path) + after, before.len() as int, path.len()) == Ok::<
            (Seq<Seq<u8>>, int),
            CodecError,
        >((path, (before.len() + path_encoding(path).len()) as int)),
    decreases path.len(),
{
    let bytes = before + path_encoding(path) + after;
    if path.len() == 0 {
        assert(decode_path(bytes, before.len() as int, 0).unwrap().0 =~= path);
    } else {
        let first = identifier_encoding(path[0]);
        let rest = path.drop_first();
        let tail = path_encoding(rest);
        assert(valid_identifier(path[0]));
        assert(valid_path(rest)) by {
            assert forall|i: int| 0 <= i < rest.len() implies valid_identifier(
                #[trigger] rest[i],
            ) by {
                assert(rest[i] == path[i + 1]);
            }
        }
        lemma_regroup(before, first, tail, after);
        lemma_identifier_round_trip(before, path[0], tail + after);
        lemma_path_round_trip(before + first, rest, after);
        assert(seq![path[0]] + rest =~= path);
    }
}

/// A path of identifiers is written in ASCII.
pub proof fn lemma_path_text_ascii(path: Seq<Seq<u8>>)
    requires
        valid_path(path),
    ensures
        all_ascii(path_text(path)),
    decreases path.len(),
{
    if path.len() > 0 {
        lemma_path_text_ascii(path.drop_last());
        let last = path.last();
        let text = path_text(path);
        let before = path_text(path.drop_last());
        assert(valid_identifier(path[path.len() - 1]));
        assert forall|i: int| 0 <= i < text.len() implies #[trigger] text[i] < 128 by {
            if i < before.len() {
                assert(text[i] == before[i]);
            } else if i == before.len() {
            } else {
                assert(text[i] == last[i - before.len() - 1]);
                assert(crate::identifier::is_identifier_byte(last[i - before.len() - 1]));
            }
        }
    }
}

/// A path as it is written, from its first name on: a dot, the name, and
/// the rest of the path.
pub proof fn lemma_path_text_front(path: Seq<Seq<u8>>)
    requires
        path.len() > 0,
    ensures
        path_text(path) == seq![0x2eu8] + path[0] + path_text(path.drop_first()),
    decreases path.len(),
{
    if path.len() == 1 {
        assert(path.drop_last() =~= Seq::<Seq<u8>>::empty());
        assert(path.drop_first() =~= Seq::<Seq<u8>>::empty());
        assert(path_text(path) =~= seq![0x2eu8] + path[0] + path_text(path.drop_first()));
    } else {
        let front = path.drop_last();
        lemma_path_text_front(front);
        assert(front.drop_first() =~= path.drop_first().drop_last());
        assert(front[0] == path[0]);
        assert(path.drop_first().last() == path.last());
        assert(path_text(path) =~= seq![0x2eu8] + path[0] + path_text(path.drop_first()));
    }
}

/// A path that was written is read back from the text, whatever stands
/// before it, as long as a blank or nothing follows it.
#[verifier::rlimit(40)]
pub proof fn lemma_path_text_round_trip(before: Seq<u8>, path: Seq<Seq<u8>>, after: Seq<u8>)
    requires
        valid_path(path),
        blank_or_end(after),
    ensures
        parse_path(before + path_text(path) + after, before.len() as int) == (
            path,
            (before.len() + path_text(path).len()) as int,
        ),
    decreases path.len(),
{
    let bytes = before + path_text(path) + after;
    let at = before.len() as int;
    if path.len() == 0 {
        if at < bytes.len() {
            assert(bytes[at] == after[0]);
        }
        assert(parse_path(bytes, at).0 =~= path);
    } else {
        let dot = seq![0x2eu8];
        let rest = path.drop_first();
        let tail = path_text(rest);
        lemma_path_text_front(path);
        assert(valid_identifier(path[0]));
        assert(valid_path(rest)) by {
            assert forall|i: int| 0 <= i < rest.len() implies valid_identifier(
                #[trigger] rest[i],
            ) by {
                assert(rest[i] == path[i + 1]);
            }
        }
        assert(bytes =~= (before + dot) + path[0] + (tail + after));
        assert(bytes =~= (before + dot + path[0]) + tail + after);
        assert(bytes[at] == 0x2e);
        assert(no_identifier_byte(tail + after)) by {
            if rest.len() > 0 {
                lemma_path_text_front(rest);
                assert((tail + after)[0] == 0x2e);
            } else if after.len() > 0 {
                assert((tail + after)[0] == after[0]);
            }
        }
        lemma_identifier_text_round_trip(before + dot, path[0], tail + after);
        lemma_path_text_round_trip(before + dot + path[0], rest, after);
        assert(seq![path[0]] + rest =~= path);
    }
}

/// A register that was written is read back from the text, whatever stands
/// before it, as long as a blank or nothing follows it.
#[verifier::rlimit(40)]
pub proof fn lemma_register_text_round_trip(before: Seq<u8>, register: RegisterView, after: Seq<u8>)
    requires
        register.wf(),
        blank_or_end(after),
    ensures
        parse_register(before + register.text() + after, before.len() as int) == Some(
            (register, (before.len() + register.text().len()) as int),
        ),
        register.text().len() >= 2,
        register.text()[0] == 0x72,
{
    let bytes = before + register.text() + after;
    let at = before.len() as int;
    let locator = register.locator();
    let number = decimal(locator as nat);
    let path = match register {
        RegisterView::Locator(_) => Seq::<Seq<u8>>::empty(),
        RegisterView::Member(_, path) => path,
    };
    let tail = path_text(path);
    let head = before + seq![0x72u8] + number;
    lemma_decimal(locator as nat);
    assert(register.text() =~= seq![0x72u8] + number + tail);
    assert(bytes =~= head + tail + after);
    assert(bytes[at] == 0x72);
    let digits_to = at + 1 + number.len();
    assert forall|i: int| at + 1 <= i < digits_to implies is_digit(#[trigger] bytes[i]) by {
        assert(bytes[i] == number[i - at - 1]);
    }
    if digits_to < bytes.len() {
        if path.len() > 0 {
            lemma_path_text_front(path);
            assert(bytes[digits_to] == 0x2e);
        } else {
            assert(bytes[digits_to] == after[0]);
        }
    }
    lemma_digits_end_of(bytes, at + 1, digits_to);
    assert(bytes.subrange(at + 1, digits_to) =~= number);
    lemma_path_text_round_trip(head, path, after);
}

/// A register that was written is read back, whatever stands before and
/// after it.
#[verifier::rlimit(40)]
pub proof fn lemma_register_round_trip(before: Seq<u8>, register: RegisterView, after: Seq<u8>)
    requires
        register.wf(),
    ensures
        decode_register(before + register.encoding() + after, before.len() as int) == Ok::<
            (RegisterView, int),
            CodecError,
        >((register, (before.len() + register.encoding().len()) as int)),
{
    let bytes = before + register.encoding() + after;
    let at = before.len() as int;
    let locator = register.locator();
    lemma_byte_ranges();
    lemma_le_bytes(locator as nat, 8);
    assert(bytes.subrange(at + 1, at + 9) =~= le_bytes(locator as nat, 8));
    match register {
        RegisterView::Locator(_) => {
            assert(bytes[at] == 0);
        },
        RegisterView::Member(_, path) => {
            assert(bytes[at] == 1);
            lemma_le_bytes(path.len(), 2);
            assert(bytes.subrange(at + 9, at + 11) =~= le_bytes(path.len(), 2));
            let head = before + seq![1u8] + le_bytes(locator as nat, 8) + le_bytes(path.len(), 2);
            lemma_path_round_trip(head, path, after);
            assert(head + path_encoding(path) + after =~= bytes);
        },
    }
}

} // verus!

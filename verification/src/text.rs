//! Text as ASCII bytes: the pieces that names, instructions and messages are
//! written with and read from.

use vstd::prelude::*;
use vstd::string::{is_ascii, is_ascii_spec_bytes, StringSliceAdditionalSpecFns};

verus! {

/// The bytes of a text of ASCII characters.
pub open spec fn ascii(chars: Seq<char>) -> Seq<u8> {
    Seq::new(chars.len(), |i: int| chars[i] as u8)
}

/// The characters of a text given by its ASCII bytes.
pub open spec fn chars_of(bytes: Seq<u8>) -> Seq<char> {
    Seq::new(bytes.len(), |i: int| bytes[i] as char)
}

/// Every byte is an ASCII code.
pub open spec fn all_ascii(bytes: Seq<u8>) -> bool {
    forall|i: int| 0 <= i < bytes.len() ==> #[trigger] bytes[i] < 128
}

/// A decimal digit.
pub open spec fn is_digit(byte: u8) -> bool {
    0x30 <= byte <= 0x39
}

/// A letter, upper or lower case.
pub open spec fn is_letter(byte: u8) -> bool {
    (0x41 <= byte <= 0x5a) || (0x61 <= byte <= 0x7a)
}

/// A blank, a tab, a line feed or a carriage return.
pub open spec fn is_space(byte: u8) -> bool {
    byte == 0x20 || byte == 0x09 || byte == 0x0a || byte == 0x0d
}

/// The digit that stands for a number below ten.
pub open spec fn digit_byte(digit: nat) -> u8 {
    (0x30 + digit) as u8
}

/// A number in decimal: no sign, no leading zero but for zero itself.
pub open spec fn decimal(n: nat) -> Seq<u8>
    decreases n,
{
    if n < 10 {
        seq![digit_byte(n)]
    } else {
        decimal(n / 10).push(digit_byte(n % 10))
    }
}

/// The number that a sequence of digits stands for, leading zeros allowed.
pub open spec fn decimal_value(digits: Seq<u8>) -> nat
    decreases digits.len(),
{
    if digits.len() == 0 {
        0
    } else {
        10 * decimal_value(digits.drop_last()) + (digits.last() - 0x30) as nat
    }
}

/// Every byte is a digit.
pub open spec fn all_digits(bytes: Seq<u8>) -> bool {
    forall|i: int| 0 <= i < bytes.len() ==> is_digit(#[trigger] bytes[i])
}

/// Where the blanks that start at `at` end.
pub open spec fn spaces_end(bytes: Seq<u8>, at: int) -> int
    decreases bytes.len() - at,
{
    if 0 <= at < bytes.len() && is_space(bytes[at]) {
        spaces_end(bytes, at + 1)
    } else {
        at
    }
}

/// Where the digits that start at `at` end.
pub open spec fn digits_end(bytes: Seq<u8>, at: int) -> int
    decreases bytes.len() - at,
{
    if 0 <= at < bytes.len() && is_digit(bytes[at]) {
        digits_end(bytes, at + 1)
    } else {
        at
    }
}

/// Whether `tag` stands at `at`.
pub open spec fn tag_at(bytes: Seq<u8>, at: int, tag: Seq<u8>) -> bool {
    0 <= at && at + tag.len() <= bytes.len() && bytes.subrange(at, at + tag.len()) == tag
}

/// Nothing stands behind, or a blank does.
pub open spec fn blank_or_end(after: Seq<u8>) -> bool {
    after.len() == 0 || is_space(after[0])
}

/// Whether the byte is a decimal digit.
pub fn digit_of(byte: u8) -> (r: bool)
    ensures
        r == is_digit(byte),
{
    0x30 <= byte && byte <= 0x39
}

/// Whether the byte is a letter.
pub fn letter_of(byte: u8) -> (r: bool)
    ensures
        r == is_letter(byte),
{
    (0x41 <= byte && byte <= 0x5a) || (0x61 <= byte && byte <= 0x7a)
}

/// Whether the byte is a blank.
pub fn space_of(byte: u8) -> (r: bool)
    ensures
        r == is_space(byte),
{
    byte == 0x20 || byte == 0x09 || byte == 0x0a || byte == 0x0d
}

/// Appends an ASCII text.
pub fn push_str(out: &mut Vec<u8>, text: &str)
    requires
        is_ascii(text),
    ensures
        final(out)@ == old(out)@ + ascii(text@),
{
    proof {
        is_ascii_spec_bytes(text);
    }
    let bytes: &[u8] = text.as_bytes();
    out.extend_from_slice(bytes);
    assert(bytes@ =~= ascii(text@));
}

/// Appends some bytes.
pub fn push_bytes(out: &mut Vec<u8>, bytes: &[u8])
    ensures
        final(out)@ == old(out)@ + bytes@,
{
    out.extend_from_slice(bytes);
}

/// Appends a number in decimal.
pub fn push_decimal(out: &mut Vec<u8>, n: u128)
    ensures
        final(out)@ == old(out)@ + decimal(n as nat),
    decreases n,
{
    if n < 10 {
        out.push(0x30 + (n as u8));
        assert(final(out)@ =~= old(out)@ + decimal(n as nat));
    } else {
        push_decimal(out, n / 10);
        out.push(0x30 + ((n % 10) as u8));
        assert(final(out)@ =~= old(out)@ + decimal(n as nat));
    }
}

/// Skips the blanks that start at `at`.
pub fn skip_spaces(input: &[u8], at: usize) -> (r: usize)
    requires
        at <= input@.len(),
    ensures
        r == spaces_end(input@, at as int),
        at <= r <= input@.len(),
{
    let mut position: usize = at;
    while position < input.len() && space_of(input[position])
        invariant
            at <= position <= input@.len(),
            spaces_end(input@, position as int) == spaces_end(input@, at as int),
        decreases input@.len() - position,
    {
        position = position + 1;
    }
    position
}

/// Skips the digits that start at `at`.
pub fn skip_digits(input: &[u8], at: usize) -> (r: usize)
    requires
        at <= input@.len(),
    ensures
        r == digits_end(input@, at as int),
        at <= r <= input@.len(),
{
    let mut position: usize = at;
    while position < input.len() && digit_of(input[position])
        invariant
            at <= position <= input@.len(),
            digits_end(input@, position as int) == digits_end(input@, at as int),
        decreases input@.len() - position,
    {
        position = position + 1;
    }
    position
}

/// Whether the ASCII text `tag` stands at `at`.
pub fn starts_with(input: &[u8], at: usize, tag: &str) -> (r: bool)
    requires
        is_ascii(tag),
        at <= input@.len(),
    ensures
        r == tag_at(input@, at as int, ascii(tag@)),
{
    proof {
        is_ascii_spec_bytes(tag);
    }
    let expected: &[u8] = tag.as_bytes();
    assert(expected@ =~= ascii(tag@));
    let n: usize = expected.len();
    let length: usize = input.len();
    if n > length - at {
        return false;
    }
    let mut i: usize = 0;
    while i < n
        invariant
            i <= n,
            n == expected@.len(),
            length == input@.len(),
            at + n <= length,
            expected@ == ascii(tag@),
            forall|j: int| 0 <= j < i ==> input@[at + j] == expected@[j],
        decreases n - i,
    {
        if input[at + i] != expected[i] {
            assert(input@.subrange(at as int, at + n)[i as int] != expected@[i as int]);
            return false;
        }
        i = i + 1;
    }
    assert(input@.subrange(at as int, at + n) =~= expected@);
    true
}

/// Reads the number that the digits from `from` to `to` stand for, where
/// it fits in a `u128`.
pub fn read_decimal(input: &[u8], from: usize, to: usize) -> (r: Option<u128>)
    requires
        from <= to <= input@.len(),
        all_digits(input@.subrange(from as int, to as int)),
    ensures
        r is Some <==> decimal_value(input@.subrange(from as int, to as int)) <= u128::MAX,
        r matches Some(value) ==> value == decimal_value(input@.subrange(from as int, to as int)),
{
    let ghost digits = input@.subrange(from as int, to as int);
    let mut acc: u128 = 0;
    let mut i: usize = from;
    assert(digits.take(0) =~= Seq::<u8>::empty());
    while i < to
        invariant
            from <= i <= to,
            to <= input@.len(),
            digits == input@.subrange(from as int, to as int),
            all_digits(digits),
            acc == decimal_value(digits.take(i - from)),
        decreases to - i,
    {
        proof {
            assert(digits[i - from] == input@[i as int]);
            assert(is_digit(digits[i - from]));
        }
        let digit: u128 = (input[i] - 0x30) as u128;
        proof {
            assert(digits.take(i - from + 1).drop_last() =~= digits.take(i - from));
            assert(digits.take(i - from + 1).last() == digits[i - from]);
            lemma_decimal_value_grows(digits, i - from + 1);
        }
        if acc > (u128::MAX - digit) / 10 {
            return None;
        }
        acc = acc * 10 + digit;
        i = i + 1;
    }
    assert(digits.take(to - from) =~= digits);
    Some(acc)
}

/// The text with the given ASCII bytes, as a `String`.
///
/// Calls `String::from_utf8` of std. The contract claims that the
/// conversion succeeds on bytes that are all ASCII codes, which are valid
/// UTF-8, and that each byte becomes the character with that code.
#[verifier::external_body]
pub(crate) fn string_from_ascii(bytes: Vec<u8>) -> (r: String)
    requires
        all_ascii(bytes@),
    ensures
        r@ == chars_of(bytes@),
{
    match String::from_utf8(bytes) {
        Ok(text) => text,
        Err(_) => String::new(),
    }
}

/// A number in decimal is digits only, starts with a zero only when it is
/// zero, and stands for the number.
pub proof fn lemma_decimal(n: nat)
    ensures
        decimal(n).len() >= 1,
        all_digits(decimal(n)),
        all_ascii(decimal(n)),
        decimal(n)[0] == 0x30 <==> n == 0,
        decimal(n).len() == 1 <==> n < 10,
        decimal_value(decimal(n)) == n,
    decreases n,
{
    if n < 10 {
        assert(decimal(n).drop_last() =~= Seq::<u8>::empty());
        assert(decimal_value(decimal(n).drop_last()) == 0);
    } else {
        lemma_decimal(n / 10);
        assert(decimal(n).drop_last() =~= decimal(n / 10));
    }
}

/// A run of blanks or digits ends within the bytes, and not before it
/// starts.
pub proof fn lemma_runs_end(bytes: Seq<u8>, at: int)
    requires
        0 <= at <= bytes.len(),
    ensures
        at <= spaces_end(bytes, at) <= bytes.len(),
        at <= digits_end(bytes, at) <= bytes.len(),
        all_digits(bytes.subrange(at, digits_end(bytes, at))),
        digits_end(bytes, at) < bytes.len() ==> !is_digit(bytes[digits_end(bytes, at)]),
        spaces_end(bytes, at) < bytes.len() ==> !is_space(bytes[spaces_end(bytes, at)]),
    decreases bytes.len() - at,
{
    if at < bytes.len() {
        lemma_runs_end(bytes, at + 1);
        if is_digit(bytes[at]) {
            let end = digits_end(bytes, at);
            assert forall|i: int| 0 <= i < end - at implies is_digit(
                #[trigger] bytes.subrange(at, end)[i],
            ) by {
                if i > 0 {
                    assert(bytes.subrange(at, end)[i] == bytes.subrange(at + 1, end)[i - 1]);
                }
            }
        }
    }
}

/// Digits that are followed by none end where they end.
pub proof fn lemma_digits_end_of(bytes: Seq<u8>, at: int, end: int)
    requires
        0 <= at <= end <= bytes.len(),
        forall|i: int| at <= i < end ==> is_digit(#[trigger] bytes[i]),
        end == bytes.len() || !is_digit(bytes[end]),
    ensures
        digits_end(bytes, at) == end,
    decreases end - at,
{
    if at < end {
        lemma_digits_end_of(bytes, at + 1, end);
    }
}

/// One blank before something that is none is skipped, and nothing else.
pub proof fn lemma_spaces_end_one(bytes: Seq<u8>, at: int)
    requires
        0 <= at < bytes.len(),
        is_space(bytes[at]),
        at + 1 == bytes.len() || !is_space(bytes[at + 1]),
    ensures
        spaces_end(bytes, at) == at + 1,
        spaces_end(bytes, at + 1) == at + 1,
{
    assert(spaces_end(bytes, at) == spaces_end(bytes, at + 1));
}

/// A tag stands where it was put.
pub proof fn lemma_tag_match(before: Seq<u8>, tag: Seq<u8>, after: Seq<u8>)
    ensures
        tag_at(before + tag + after, before.len() as int, tag),
{
    assert((before + tag + after).subrange(before.len() as int, (before.len() + tag.len()) as int)
        =~= tag);
}

/// A tag does not stand where one of its bytes does not.
pub proof fn lemma_tag_mismatch(bytes: Seq<u8>, at: int, tag: Seq<u8>, index: int)
    requires
        0 <= at,
        0 <= index < tag.len(),
        at + index >= bytes.len() || bytes[at + index] != tag[index],
    ensures
        !tag_at(bytes, at, tag),
{
    if at + tag.len() <= bytes.len() {
        assert(bytes.subrange(at, at + tag.len())[index] == bytes[at + index]);
    }
}

/// The number that some digits stand for is at least the number that the
/// first of them stand for.
pub proof fn lemma_decimal_value_grows(digits: Seq<u8>, prefix: int)
    requires
        0 <= prefix <= digits.len(),
        all_digits(digits),
    ensures
        decimal_value(digits.take(prefix)) <= decimal_value(digits),
    decreases digits.len() - prefix,
{
    if prefix < digits.len() {
        assert(digits.take(prefix + 1).drop_last() =~= digits.take(prefix));
        assert(is_digit(digits[prefix]));
        assert(digits.take(prefix + 1).last() == digits[prefix]);
        lemma_decimal_value_grows(digits, prefix + 1);
    } else {
        assert(digits.take(prefix) =~= digits);
    }
}

} // verus!

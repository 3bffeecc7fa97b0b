//! The byte layout of instructions: little-endian numbers of fixed width,
//! and sequences of items one after another.

use vstd::prelude::*;

verus! {

/// Why bytes could not be read as a value, or a value not be written as
/// bytes.
#[derive(Clone, Copy, Debug, PartialEq, Eq, Structural)]
pub enum CodecError {
    /// The bytes end before the value does.
    UnexpectedEnd,
    /// The byte that selects the variant selects none.
    InvalidVariant,
    /// The name is not an identifier.
    InvalidIdentifier,
    /// The text is not an address.
    InvalidAddress,
    /// The byte of a boolean is neither 0 nor 1.
    InvalidBoolean,
    /// The path of a member is empty.
    EmptyPath,
    /// There are more operands than an instruction can have.
    TooManyOperands,
    /// There are more destinations than an instruction can have.
    TooManyDestinations,
}

/// The `width` low bytes of a number, least significant first.
pub open spec fn le_bytes(value: nat, width: nat) -> Seq<u8>
    decreases width,
{
    if width == 0 {
        Seq::<u8>::empty()
    } else {
        seq![(value % 256) as u8] + le_bytes(value / 256, (width - 1) as nat)
    }
}

/// The number that bytes stand for, least significant first.
pub open spec fn le_number(bytes: Seq<u8>) -> nat
    decreases bytes.len(),
{
    if bytes.len() == 0 {
        0
    } else {
        bytes[0] as nat + 256 * le_number(bytes.drop_first())
    }
}

/// 256 to the power `width`: the numbers below it are those that `width`
/// bytes can hold.
pub open spec fn byte_range(width: nat) -> nat
    decreases width,
{
    if width == 0 {
        1
    } else {
        256 * byte_range((width - 1) as nat)
    }
}

/// Appends the `width` low bytes of a number, least significant first.
pub fn write_le(out: &mut Vec<u8>, value: u128, width: usize)
    ensures
        final(out)@ == old(out)@ + le_bytes(value as nat, width as nat),
{
    let mut rest: u128 = value;
    let mut i: usize = 0;
    while i < width
        invariant
            i <= width,
            out@ + le_bytes(rest as nat, (width - i) as nat) == old(out)@ + le_bytes(
                value as nat,
                width as nat,
            ),
        decreases width - i,
    {
        let ghost before = out@;
        out.push((rest % 256) as u8);
        proof {
            assert(out@ + le_bytes((rest / 256) as nat, (width - i - 1) as nat) =~= before
                + le_bytes(rest as nat, (width - i) as nat));
        }
        rest = rest / 256;
        i = i + 1;
    }
    assert(out@ + le_bytes(rest as nat, 0) =~= out@);
}

/// Reads the number that the `width` bytes from `at` stand for, least
/// significant first, where there are that many.
pub fn read_le(input: &[u8], at: usize, width: usize) -> (r: Option<u128>)
    requires
        width <= 16,
        at <= input@.len(),
    ensures
        r is Some <==> at + width <= input@.len(),
        r matches Some(value) ==> value == le_number(input@.subrange(at as int, at + width)),
{
    let length: usize = input.len();
    if width > length - at {
        return None;
    }
    let ghost bytes = input@.subrange(at as int, at + width);
    let mut acc: u128 = 0;
    let mut k: usize = width;
    proof {
        assert(bytes.subrange(width as int, width as int) =~= Seq::<u8>::empty());
    }
    while k > 0
        invariant
            k <= width,
            width <= 16,
            at + width <= length,
            length == input@.len(),
            bytes == input@.subrange(at as int, at + width),
            acc == le_number(bytes.subrange(k as int, width as int)),
        decreases k,
    {
        k = k - 1;
        proof {
            let tail = bytes.subrange(k as int, width as int);
            assert(tail.drop_first() =~= bytes.subrange(k + 1, width as int));
            lemma_le_number(tail.drop_first());
            lemma_le_number(tail);
            lemma_byte_range_bound((width - k) as nat);
        }
        acc = acc * 256 + (input[at + k] as u128);
    }
    proof {
        assert(bytes.subrange(0, width as int) =~= bytes);
    }
    Some(acc)
}

/// The ranges of the widths in use.
pub proof fn lemma_byte_ranges()
    ensures
        byte_range(1) == 0x100,
        byte_range(2) == 0x1_0000,
        byte_range(4) == 0x1_0000_0000,
        byte_range(8) == 0x1_0000_0000_0000_0000,
        byte_range(16) == 0x1_0000_0000_0000_0000_0000_0000_0000_0000,
{
    reveal_with_fuel(byte_range, 17);
}

/// Writing a number in `width` bytes gives `width` bytes, and reading them
/// gives the number back where it is in range.
pub proof fn lemma_le_bytes(value: nat, width: nat)
    ensures
        le_bytes(value, width).len() == width,
        le_number(le_bytes(value, width)) == value % byte_range(width),
        value < byte_range(width) ==> le_number(le_bytes(value, width)) == value,
    decreases width,
{
    if width == 0 {
    } else {
        let rest = le_bytes(value / 256, (width - 1) as nat);
        lemma_le_bytes(value / 256, (width - 1) as nat);
        lemma_byte_range_positive((width - 1) as nat);
        assert(le_bytes(value, width).drop_first() =~= rest);
        let r = byte_range((width - 1) as nat) as int;
        vstd::arithmetic::div_mod::lemma_mod_breakdown(value as int, 256, r);
        assert(value as int % (256 * r) == 256 * ((value as int / 256) % r) + value as int % 256);
        if value < byte_range(width) {
            vstd::arithmetic::div_mod::lemma_small_mod(value, byte_range(width));
        }
    }
}

/// Every width holds some number.
pub proof fn lemma_byte_range_positive(width: nat)
    ensures
        byte_range(width) > 0,
    decreases width,
{
    if width > 0 {
        lemma_byte_range_positive((width - 1) as nat);
    }
}

/// Reading bytes gives a number in range, and writing it in as many bytes
/// gives the bytes back.
pub proof fn lemma_le_number(bytes: Seq<u8>)
    ensures
        le_number(bytes) < byte_range(bytes.len()),
        le_bytes(le_number(bytes), bytes.len()) == bytes,
    decreases bytes.len(),
{
    if bytes.len() > 0 {
        let rest = bytes.drop_first();
        lemma_le_number(rest);
        let n = le_number(bytes);
        assert(n % 256 == bytes[0] as nat);
        assert(n / 256 == le_number(rest));
        assert(le_bytes(n, bytes.len()) =~= bytes);
    }
}

/// Bytes put together in one order are the same bytes however they are
/// grouped.
pub proof fn lemma_regroup(a: Seq<u8>, b: Seq<u8>, c: Seq<u8>, d: Seq<u8>)
    ensures
        a + (b + c) + d == a + b + (c + d),
        a + (b + c) + d == a + b + c + d,
        (a + (b + c) + d).len() == a.len() + b.len() + c.len() + d.len(),
{
    assert(a + (b + c) + d =~= a + b + (c + d));
    assert(a + (b + c) + d =~= a + b + c + d);
}

/// Sixteen bytes hold no more than a `u128` does.
pub proof fn lemma_byte_range_bound(width: nat)
    requires
        width <= 16,
    ensures
        byte_range(width) <= 0x1_0000_0000_0000_0000_0000_0000_0000_0000,
{
    reveal_with_fuel(byte_range, 17);
}

} // verus!

//! Fixed-width integers as little-endian sequences of boolean wires.

use crate::bits::{
    all_constant,
    high_part,
    le_value,
    lemma_high_part_step,
    lemma_le_value_bound,
    lemma_mode_of_push,
    lemma_wires_of,
    mode_of,
    uniform,
    wires_of,
};
use crate::boolean::{select_wire, Boolean, Wire};
use crate::circuit::Circuit;
use crate::count::Cost;
use crate::mode::Mode;
use crate::native::{
    from_signed,
    in_signed_range,
    is_integer_width,
    lemma_width_moduli,
    signed_value,
    to_signed,
};
use vstd::arithmetic::power2::{
    lemma_pow2_pos,
    lemma_pow2_strictly_increases,
    lemma_pow2_unfold,
    pow2,
};
use vstd::prelude::*;

verus! {

/// An integer of `BITS` bits, signed or unsigned, in a circuit.
///
/// The integer is `BITS` wires, least significant first. Its value is the
/// bit pattern on the wires; where `SIGNED` holds, the pattern is read in
/// two's complement. Its mode is the mode of its wires taken together. A
/// constant keeps its pattern beside the wires, so that folding constants
/// does not put it together again bit by bit.
pub struct Integer<const BITS: usize, const SIGNED: bool> {
    bits_le: Vec<Boolean>,
    constant: Option<u128>,
}

/// A signed integer of 8 bits.
pub type I8 = Integer<8, true>;

/// A signed integer of 16 bits.
pub type I16 = Integer<16, true>;

/// A signed integer of 32 bits.
pub type I32 = Integer<32, true>;

/// A signed integer of 64 bits.
pub type I64 = Integer<64, true>;

/// A signed integer of 128 bits.
pub type I128 = Integer<128, true>;

/// An unsigned integer of 8 bits.
pub type U8 = Integer<8, false>;

/// An unsigned integer of 16 bits.
pub type U16 = Integer<16, false>;

/// An unsigned integer of 32 bits.
pub type U32 = Integer<32, false>;

/// An unsigned integer of 64 bits.
pub type U64 = Integer<64, false>;

/// An unsigned integer of 128 bits.
pub type U128 = Integer<128, false>;

/// The wires that selecting between two integers by `condition` gives, wire
/// by wire.
pub open spec fn select_wires(condition: Wire, first: Seq<Wire>, second: Seq<Wire>) -> Seq<Wire> {
    Seq::new(first.len(), |i: int| select_wire(condition, first[i], second[i]))
}

impl<const BITS: usize, const SIGNED: bool> View for Integer<BITS, SIGNED> {
    type V = Seq<Wire>;

    closed spec fn view(&self) -> Seq<Wire> {
        self.bits_le@.map_values(|b: Boolean| b@)
    }
}

impl<const BITS: usize, const SIGNED: bool> Integer<BITS, SIGNED> {
    #[verifier::type_invariant]
    spec fn well_formed(&self) -> bool {
        &&& self.bits_le@.len() == BITS
        &&& is_integer_width(BITS as nat)
        &&& self.constant is Some <==> all_constant(self@)
        &&& self.constant matches Some(pattern) ==> pattern == le_value(self@)
    }

    /// The bit pattern on the wires, as a number.
    pub open spec fn value(&self) -> nat {
        le_value(self@)
    }

    /// The native value: the pattern itself for an unsigned integer, its
    /// two's-complement reading for a signed one.
    pub open spec fn native(&self) -> int {
        if SIGNED {
            signed_value(self.value(), BITS as nat)
        } else {
            self.value() as int
        }
    }

    /// The mode of the integer: that of its wires taken together.
    pub open spec fn mode(&self) -> Mode {
        mode_of(self@)
    }

    /// What witnessing an integer of this width in the given mode adds to a
    /// circuit: one wire of that mode for each bit.
    pub open spec fn witness_cost(mode: Mode) -> Cost {
        let bits = BITS as nat;
        match mode {
            Mode::Constant => Cost::new(bits, 0, 0, 0),
            Mode::Public => Cost::new(0, bits, 0, 0),
            Mode::Private => Cost::new(0, 0, bits, 0),
        }
    }

    /// What selecting between two integers of this width adds to a circuit:
    /// nothing under a constant condition, otherwise one private wire and one
    /// constraint for each bit.
    pub open spec fn ternary_cost(condition: Mode) -> Cost {
        let bits = BITS as nat;
        if condition == Mode::Constant {
            Cost::zero()
        } else {
            Cost::new(0, 0, bits, bits)
        }
    }

    /// The integer that holds the pattern `value` on wires of one mode,
    /// which are accounted for elsewhere.
    pub(crate) fn from_pattern(mode: Mode, value: u128) -> (r: Self)
        requires
            is_integer_width(BITS as nat),
            value < pow2(BITS as nat),
        ensures
            r@ == wires_of(value as nat, BITS as nat, mode),
    {
        let mut bits_le: Vec<Boolean> = Vec::new();
        let mut rest: u128 = value;
        let mut i: usize = 0;
        proof {
            vstd::arithmetic::power2::lemma2_to64();
        }
        while i < BITS
            invariant
                i <= BITS,
                bits_le@.len() == i,
                rest as nat == (value as nat) / pow2(i as nat),
                forall|j: int|
                    0 <= j < i ==> (#[trigger] bits_le@[j])@ == wires_of(
                        value as nat,
                        BITS as nat,
                        mode,
                    )[j],
            decreases BITS - i,
        {
            let b: bool = rest % 2 == 1;
            bits_le.push(Boolean::from_wire(Wire { mode, value: b }));
            proof {
                lemma_pow2_pos(i as nat);
                lemma_pow2_unfold((i + 1) as nat);
                vstd::arithmetic::div_mod::lemma_div_denominator(
                    value as int,
                    pow2(i as nat) as int,
                    2,
                );
            }
            rest = rest / 2;
            i = i + 1;
        }
        let constant: Option<u128> = if mode.is_constant() {
            Some(value)
        } else {
            None
        };
        proof {
            let wires = wires_of(value as nat, BITS as nat, mode);
            assert(bits_le@.map_values(|b: Boolean| b@) =~= wires);
            lemma_wires_of(value as nat, BITS as nat, mode);
            vstd::arithmetic::div_mod::lemma_small_mod(value as nat, pow2(BITS as nat));
            assert(wires[0].mode == mode);
        }
        Integer { bits_le, constant }
    }

    /// Witnesses the pattern `value` as a new integer of the given mode.
    ///
    /// The pattern must fit the width; `lemma_width_moduli` gives the powers
    /// of two of the five widths as numbers.
    pub fn new(cs: &mut Circuit, mode: Mode, value: u128) -> (r: Self)
        requires
            is_integer_width(BITS as nat),
            value < pow2(BITS as nat),
            old(cs).wf(),
            old(cs).fits(Self::witness_cost(mode)),
        ensures
            r@ == wires_of(value as nat, BITS as nat, mode),
            r@.len() == BITS,
            r.value() == value,
            r.mode() == mode,
            final(cs).extends(*old(cs), Self::witness_cost(mode)),
    {
        proof {
            lemma_wires_of(value as nat, BITS as nat, mode);
            vstd::arithmetic::div_mod::lemma_small_mod(value as nat, pow2(BITS as nat));
            crate::bits::lemma_mode_of_uniform(wires_of(value as nat, BITS as nat, mode), mode);
        }
        let width: u64 = BITS as u64;
        match mode {
            Mode::Constant => cs.charge(width, 0, 0, 0),
            Mode::Public => cs.charge(0, width, 0, 0),
            Mode::Private => cs.charge(0, 0, width, 0),
        }
        Self::from_pattern(mode, value)
    }

    /// Witnesses a native signed value as a new integer of the given mode.
    pub fn new_signed(cs: &mut Circuit, mode: Mode, value: i128) -> (r: Self)
        requires
            SIGNED,
            is_integer_width(BITS as nat),
            in_signed_range(value as int, BITS as nat),
            old(cs).wf(),
            old(cs).fits(Self::witness_cost(mode)),
        ensures
            r@.len() == BITS,
            uniform(r@, mode),
            r.native() == value,
            r.mode() == mode,
            final(cs).extends(*old(cs), Self::witness_cost(mode)),
    {
        let pattern: u128 = from_signed(value, BITS);
        proof {
            lemma_wires_of(pattern as nat, BITS as nat, mode);
        }
        Self::new(cs, mode, pattern)
    }

    /// The constant one.
    pub fn one(cs: &mut Circuit) -> (r: Self)
        requires
            is_integer_width(BITS as nat),
            old(cs).wf(),
            old(cs).fits(Self::witness_cost(Mode::Constant)),
        ensures
            r@ == wires_of(1, BITS as nat, Mode::Constant),
            r@.len() == BITS,
            r.value() == 1,
            r.mode() == Mode::Constant,
            final(cs).extends(*old(cs), Self::witness_cost(Mode::Constant)),
    {
        proof {
            lemma_width_moduli();
        }
        Self::new(cs, Mode::Constant, 1)
    }

    /// The constant zero.
    pub fn zero(cs: &mut Circuit) -> (r: Self)
        requires
            is_integer_width(BITS as nat),
            old(cs).wf(),
            old(cs).fits(Self::witness_cost(Mode::Constant)),
        ensures
            r@ == wires_of(0, BITS as nat, Mode::Constant),
            r@.len() == BITS,
            r.value() == 0,
            r.mode() == Mode::Constant,
            final(cs).extends(*old(cs), Self::witness_cost(Mode::Constant)),
    {
        proof {
            lemma_width_moduli();
        }
        Self::new(cs, Mode::Constant, 0)
    }

    /// The number of wires.
    pub fn width(&self) -> (r: usize)
        ensures
            r == BITS,
            self@.len() == BITS,
            is_integer_width(BITS as nat),
            self.value() < pow2(BITS as nat),
    {
        proof {
            use_type_invariant(self);
            lemma_le_value_bound(self@);
        }
        BITS
    }

    /// The wire at position `index`, counted from the least significant.
    pub fn bit(&self, index: usize) -> (r: Boolean)
        requires
            index < BITS,
        ensures
            r@ == self@[index as int],
    {
        proof {
            use_type_invariant(self);
        }
        self.bits_le[index]
    }

    /// A copy on the same wires.
    pub fn duplicate(&self) -> (r: Self)
        ensures
            r@ == self@,
    {
        proof {
            use_type_invariant(self);
        }
        let mut bits_le: Vec<Boolean> = Vec::new();
        let mut i: usize = 0;
        while i < BITS
            invariant
                i <= BITS,
                self.bits_le@.len() == BITS,
                bits_le@.len() == i,
                forall|j: int| 0 <= j < i ==> #[trigger] bits_le@[j] == self.bits_le@[j],
            decreases BITS - i,
        {
            bits_le.push(self.bits_le[i]);
            i = i + 1;
        }
        assert(bits_le@.map_values(|b: Boolean| b@) =~= self@);
        Integer { bits_le, constant: self.constant }
    }

    /// The bit pattern on the wires.
    pub fn eject_value(&self) -> (r: u128)
        ensures
            r == self.value(),
            r < pow2(BITS as nat),
    {
        proof {
            use_type_invariant(self);
            lemma_width_moduli();
            lemma_high_part_step(self@, 0);
            lemma_le_value_bound(self@);
        }
        if let Some(pattern) = self.constant {
            return pattern;
        }
        let mut acc: u128 = 0;
        let mut k: usize = BITS;
        while k > 0
            invariant
                k <= BITS,
                BITS <= 128,
                self.bits_le@.len() == BITS,
                self@.len() == BITS,
                acc as nat == le_value(high_part(self@, k as int)),
            decreases k,
        {
            k = k - 1;
            proof {
                lemma_high_part_step(self@, k as int);
                lemma_le_value_bound(high_part(self@, k as int));
                lemma_width_moduli();
                if BITS - k < 128 {
                    lemma_pow2_strictly_increases((BITS - k) as nat, 128);
                }
            }
            let b: u128 = if self.bits_le[k].eject_value() {
                1
            } else {
                0
            };
            acc = 2 * acc + b;
        }
        acc
    }

    /// The native value of a signed integer.
    pub fn eject_signed(&self) -> (r: i128)
        requires
            SIGNED,
        ensures
            r == self.native(),
    {
        proof {
            use_type_invariant(self);
        }
        to_signed(self.eject_value(), BITS)
    }

    /// The mode of the integer.
    pub fn eject_mode(&self) -> (r: Mode)
        ensures
            r == self.mode(),
    {
        proof {
            use_type_invariant(self);
            lemma_mode_of_push(Seq::<Wire>::empty(), self@[0]);
            assert(self@.take(0) =~= Seq::<Wire>::empty());
        }
        let mut acc: Mode = Mode::Constant;
        let mut i: usize = 0;
        while i < BITS
            invariant
                i <= BITS,
                self.bits_le@.len() == BITS,
                self@.len() == BITS,
                acc == mode_of(self@.take(i as int)),
            decreases BITS - i,
        {
            proof {
                lemma_mode_of_push(self@.take(i as int), self@[i as int]);
                assert(self@.take(i as int).push(self@[i as int]) =~= self@.take(i + 1));
            }
            acc = acc.join(self.bits_le[i].eject_mode());
            i = i + 1;
        }
        assert(self@.take(BITS as int) =~= self@);
        acc
    }

    /// Whether every wire is constant.
    pub fn is_constant(&self) -> (r: bool)
        ensures
            r == all_constant(self@),
            r == (self.mode() == Mode::Constant),
    {
        proof {
            use_type_invariant(self);
        }
        self.constant.is_some()
    }

    /// Selects `first` where the condition holds and `second` where it does
    /// not. Under a constant condition the result is the selected integer
    /// itself and nothing is emitted; otherwise every wire of the result is
    /// a new private wire, with one constraint each.
    pub fn ternary(cs: &mut Circuit, condition: &Boolean, first: &Self, second: &Self) -> (r: Self)
        requires
            old(cs).wf(),
            old(cs).fits(Self::ternary_cost(condition@.mode)),
        ensures
            r@ == select_wires(condition@, first@, second@),
            r@.len() == BITS,
            r.value() == (if condition@.value {
                first.value()
            } else {
                second.value()
            }),
            final(cs).extends(*old(cs), Self::ternary_cost(condition@.mode)),
    {
        proof {
            use_type_invariant(first);
            use_type_invariant(second);
        }
        let chosen: &Self = if condition.eject_value() {
            first
        } else {
            second
        };
        if condition.is_constant() {
            let r = chosen.duplicate();
            proof {
                assert(r@ =~= select_wires(condition@, first@, second@));
                assert(Self::ternary_cost(condition@.mode) == Cost::zero());
                assert(cs.tally().plus(Cost::zero()) == cs.tally());
            }
            r
        } else {
            let width: u64 = BITS as u64;
            cs.charge(0, 0, width, width);
            let mut bits_le: Vec<Boolean> = Vec::new();
            let mut i: usize = 0;
            while i < BITS
                invariant
                    i <= BITS,
                    chosen.bits_le@.len() == BITS,
                    bits_le@.len() == i,
                    forall|j: int|
                        0 <= j < i ==> (#[trigger] bits_le@[j])@ == (Wire {
                            mode: Mode::Private,
                            value: chosen@[j].value,
                        }),
                decreases BITS - i,
            {
                let value: bool = chosen.bits_le[i].eject_value();
                bits_le.push(Boolean::from_wire(Wire { mode: Mode::Private, value }));
                i = i + 1;
            }
            proof {
                let wires = bits_le@.map_values(|b: Boolean| b@);
                assert(wires =~= select_wires(condition@, first@, second@));
                assert(wires[0].mode == Mode::Private);
            }
            let r = Integer { bits_le, constant: None };
            proof {
                lemma_same_values(r@, chosen@);
            }
            r
        }
    }
}

/// Wires with the same bits hold the same number, whatever their modes.
pub proof fn lemma_same_values(a: Seq<Wire>, b: Seq<Wire>)
    requires
        a.len() == b.len(),
        forall|i: int| 0 <= i < a.len() ==> (#[trigger] a[i]).value == b[i].value,
    ensures
        le_value(a) == le_value(b),
    decreases a.len(),
{
    if a.len() > 0 {
        assert forall|i: int| 0 <= i < a.drop_first().len() implies (#[trigger] a.drop_first()[i]).value
            == b.drop_first()[i].value by {
            assert(a.drop_first()[i] == a[i + 1]);
            assert(b.drop_first()[i] == b[i + 1]);
        }
        lemma_same_values(a.drop_first(), b.drop_first());
    }
}

} // verus!

//! Little-endian sequences of wires: the number they hold and the mode they
//! have as a whole.

use crate::boolean::Wire;
use crate::mode::Mode;
use vstd::arithmetic::power2::{lemma_pow2_pos, lemma_pow2_unfold, pow2};
use vstd::prelude::*;

verus! {

/// The number that one bit contributes in the lowest position.
pub open spec fn bit(b: bool) -> nat {
    if b {
        1
    } else {
        0
    }
}

/// The number held by a little-endian sequence of wires: wire `i` counts
/// `2^i`.
pub open spec fn le_value(wires: Seq<Wire>) -> nat
    decreases wires.len(),
{
    if wires.len() == 0 {
        0
    } else {
        bit(wires[0].value) + 2 * le_value(wires.drop_first())
    }
}

/// Every wire is constant.
pub open spec fn all_constant(wires: Seq<Wire>) -> bool {
    forall|i: int| 0 <= i < wires.len() ==> (#[trigger] wires[i]).mode == Mode::Constant
}

/// No wire is private.
pub open spec fn none_private(wires: Seq<Wire>) -> bool {
    forall|i: int| 0 <= i < wires.len() ==> (#[trigger] wires[i]).mode != Mode::Private
}

/// Every wire has the mode `mode`.
pub open spec fn uniform(wires: Seq<Wire>, mode: Mode) -> bool {
    forall|i: int| 0 <= i < wires.len() ==> (#[trigger] wires[i]).mode == mode
}

/// The mode of a value made of these wires: constant when every wire is,
/// public when no wire is private, private otherwise.
pub open spec fn mode_of(wires: Seq<Wire>) -> Mode {
    if all_constant(wires) {
        Mode::Constant
    } else if none_private(wires) {
        Mode::Public
    } else {
        Mode::Private
    }
}

/// The wires that hold the pattern `value` in `len` wires of one mode.
pub open spec fn wires_of(value: nat, len: nat, mode: Mode) -> Seq<Wire> {
    Seq::new(len, |i: int| Wire { mode, value: (value / pow2(i as nat)) % 2 == 1 })
}

/// The wires after the first `from`: the high part of the number.
pub open spec fn high_part(wires: Seq<Wire>, from: int) -> Seq<Wire> {
    wires.subrange(from, wires.len() as int)
}

/// The mode of some wires is the join of the modes of the wires.
pub proof fn lemma_mode_of_push(wires: Seq<Wire>, wire: Wire)
    ensures
        mode_of(wires.push(wire)) == mode_of(wires).join_spec(wire.mode),
        mode_of(Seq::<Wire>::empty()) == Mode::Constant,
{
    let longer = wires.push(wire);
    assert(forall|i: int| 0 <= i < wires.len() ==> longer[i] == wires[i]);
    assert(longer[wires.len() as int] == wire);
    if all_constant(wires) && wire.mode == Mode::Constant {
        assert(all_constant(longer));
    }
    if none_private(wires) && wire.mode != Mode::Private {
        assert(none_private(longer));
    }
    if !all_constant(wires) {
        let i = choose|i: int| 0 <= i < wires.len() && (#[trigger] wires[i]).mode != Mode::Constant;
        assert(longer[i].mode != Mode::Constant);
    }
    if !none_private(wires) {
        let i = choose|i: int| 0 <= i < wires.len() && (#[trigger] wires[i]).mode == Mode::Private;
        assert(longer[i].mode == Mode::Private);
    }
}

/// Wires of one mode have that mode as a whole, as long as there is a wire.
pub proof fn lemma_mode_of_uniform(wires: Seq<Wire>, mode: Mode)
    requires
        uniform(wires, mode),
        wires.len() > 0,
    ensures
        mode_of(wires) == mode,
{
    assert(wires[0].mode == mode);
}

/// A wire more on the high end adds its bit at the weight of its position.
pub proof fn lemma_le_value_push(wires: Seq<Wire>, wire: Wire)
    ensures
        le_value(wires.push(wire)) == le_value(wires) + bit(wire.value) * pow2(wires.len()),
    decreases wires.len(),
{
    let longer = wires.push(wire);
    if wires.len() == 0 {
        vstd::arithmetic::power2::lemma2_to64();
        assert(longer.drop_first() =~= Seq::<Wire>::empty());
        assert(le_value(longer.drop_first()) == 0);
    } else {
        assert(longer.drop_first() =~= wires.drop_first().push(wire));
        lemma_le_value_push(wires.drop_first(), wire);
        lemma_pow2_unfold(wires.len());
        assert(wires.drop_first().len() == wires.len() - 1);
        assert(bit(wire.value) * pow2(wires.len()) == 2 * (bit(wire.value) * pow2(
            (wires.len() - 1) as nat,
        ))) by (nonlinear_arith)
            requires
                pow2(wires.len()) == 2 * pow2((wires.len() - 1) as nat),
        ;
    }
}

/// The number held by `n` wires is below `2^n`.
pub proof fn lemma_le_value_bound(wires: Seq<Wire>)
    ensures
        le_value(wires) < pow2(wires.len()),
    decreases wires.len(),
{
    if wires.len() == 0 {
        vstd::arithmetic::power2::lemma2_to64();
    } else {
        lemma_le_value_bound(wires.drop_first());
        lemma_pow2_unfold(wires.len());
    }
}

/// The high part from position `from` is the bit at `from` and, doubled,
/// the high part from the next position.
pub proof fn lemma_high_part_step(wires: Seq<Wire>, from: int)
    requires
        0 <= from < wires.len(),
    ensures
        le_value(high_part(wires, from)) == bit(wires[from].value) + 2 * le_value(
            high_part(wires, from + 1),
        ),
        le_value(high_part(wires, wires.len() as int)) == 0,
        high_part(wires, 0) == wires,
{
    assert(high_part(wires, from).drop_first() =~= high_part(wires, from + 1));
    assert(high_part(wires, 0) =~= wires);
}

/// A number is zero exactly when all of its bits are.
pub proof fn lemma_le_value_zero(wires: Seq<Wire>)
    ensures
        le_value(wires) == 0 <==> forall|i: int| 0 <= i < wires.len() ==> !(#[trigger] wires[i]).value,
    decreases wires.len(),
{
    if wires.len() > 0 {
        let rest = wires.drop_first();
        lemma_le_value_zero(rest);
        if le_value(wires) == 0 {
            assert forall|i: int| 0 <= i < wires.len() implies !(#[trigger] wires[i]).value by {
                if i > 0 {
                    assert(wires[i] == rest[i - 1]);
                }
            }
        } else {
            if le_value(rest) != 0 {
                let j = choose|j: int| 0 <= j < rest.len() && (#[trigger] rest[j]).value;
                assert(wires[j + 1] == rest[j]);
            }
        }
    }
}

/// The wires made from a pattern hold that pattern, when it fits.
pub proof fn lemma_wires_of(value: nat, len: nat, mode: Mode)
    ensures
        wires_of(value, len, mode).len() == len,
        uniform(wires_of(value, len, mode), mode),
        le_value(wires_of(value, len, mode)) == value % pow2(len),
    decreases len,
{
    let wires = wires_of(value, len, mode);
    if len == 0 {
        vstd::arithmetic::power2::lemma2_to64();
    } else {
        let shorter = wires_of(value, (len - 1) as nat, mode);
        let top = Wire { mode, value: (value / pow2((len - 1) as nat)) % 2 == 1 };
        assert(wires =~= shorter.push(top));
        lemma_wires_of(value, (len - 1) as nat, mode);
        lemma_le_value_push(shorter, top);
        lemma_pow2_unfold(len);
        lemma_pow2_pos((len - 1) as nat);
        let p = pow2((len - 1) as nat) as int;
        let v = value as int;
        // v % 2p == v % p + p * ((v / p) % 2)
        vstd::arithmetic::div_mod::lemma_mod_breakdown(v, p, 2);
        assert(p * 2 == pow2(len));
        assert(bit(top.value) * pow2((len - 1) as nat) == p * ((v / p) % 2)) by (nonlinear_arith)
            requires
                bit(top.value) == (v / p) % 2,
                p == pow2((len - 1) as nat),
        ;
    }
}

} // verus!

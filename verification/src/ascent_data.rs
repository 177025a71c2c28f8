//! Which elevation changes count as ascent and which as descent.
//!
//! An elevation change is held here as the bit pattern of a double
//! (IEEE 754 binary64): the sign bit alone decides on which side it counts.
//! So positive zero counts as ascent and negative zero as descent, and every
//! change counts on exactly one side.

use vstd::multiset::lemma_multiset_empty_len;
use vstd::prelude::*;
use vstd::seq_lib::{to_multiset_build, to_multiset_len};

verus! {

/// The side on which an elevation change counts.
#[derive(Debug, Clone, Copy, PartialEq, Eq, Structural)]
pub enum Slope {
    Ascent,
    Descent,
}

/// The sign bit of a double, which is the highest of its 64 bits.
pub open spec fn sign_bit(bits: u64) -> bool {
    bits >= 0x8000_0000_0000_0000u64
}

/// The side on which the change with this bit pattern counts.
pub open spec fn slope_of(bits: u64) -> Slope {
    if sign_bit(bits) {
        Slope::Descent
    } else {
        Slope::Ascent
    }
}

/// The side that `slope` is not.
pub open spec fn other_side(slope: Slope) -> Slope {
    match slope {
        Slope::Ascent => Slope::Descent,
        Slope::Descent => Slope::Ascent,
    }
}

/// The test that a change counts on the side `slope`.
pub open spec fn counts_as(slope: Slope) -> spec_fn(u64) -> bool {
    |bits: u64| slope_of(bits) == slope
}

/// Those of `changes` that count on the side `slope`, in their order.
pub open spec fn changes_on(changes: Seq<u64>, slope: Slope) -> Seq<u64> {
    changes.filter(counts_as(slope))
}

/// Tells whether the double with this bit pattern has a negative sign.
pub fn is_sign_negative(bits: u64) -> (r: bool)
    ensures
        r == sign_bit(bits),
        r == (bits >> 63 == 1),
{
    assert((bits >= 0x8000_0000_0000_0000u64) == (bits >> 63 == 1)) by (bit_vector);
    bits >= 0x8000_0000_0000_0000u64
}

/// Tells whether the double with this bit pattern has a positive sign.
pub fn is_sign_positive(bits: u64) -> (r: bool)
    ensures
        r == !sign_bit(bits),
{
    !is_sign_negative(bits)
}

/// The side on which an elevation change counts.
pub fn classify(elevation_change: u64) -> (slope: Slope)
    ensures
        slope == slope_of(elevation_change),
{
    if is_sign_negative(elevation_change) {
        Slope::Descent
    } else {
        Slope::Ascent
    }
}

/// Picks from `changes` those that count on the side `slope`, keeping their
/// order.
pub fn select(changes: &[u64], slope: Slope) -> (picked: Vec<u64>)
    ensures
        picked@ == changes_on(changes@, slope),
{
    let mut picked: Vec<u64> = Vec::new();
    let mut i: usize = 0;
    proof {
        reveal(Seq::filter);
    }
    while i < changes.len()
        invariant
            i <= changes@.len(),
            picked@ == changes_on(changes@.take(i as int), slope),
        decreases changes@.len() - i,
    {
        proof {
            reveal(Seq::filter);
            assert(changes@.take(i + 1).drop_last() =~= changes@.take(i as int));
        }
        if classify(changes[i]) == slope {
            picked.push(changes[i]);
        }
        i += 1;
    }
    assert(changes@.take(i as int) =~= changes@);
    picked
}

/// Every change counts on exactly one side: the ascents and the descents of
/// a series are, taken together, the changes of the series, each as often as
/// it occurs there.
pub proof fn lemma_sides_share_out_the_changes(changes: Seq<u64>)
    ensures
        changes_on(changes, Slope::Ascent).to_multiset().add(
            changes_on(changes, Slope::Descent).to_multiset(),
        ) == changes.to_multiset(),
        changes_on(changes, Slope::Ascent).len() + changes_on(changes, Slope::Descent).len()
            == changes.len(),
    decreases changes.len(),
{
    broadcast use vstd::multiset::group_multiset_axioms;

    reveal(Seq::filter);
    let up = changes_on(changes, Slope::Ascent);
    let down = changes_on(changes, Slope::Descent);
    if changes.len() == 0 {
        to_multiset_len(changes);
        to_multiset_len(up);
        to_multiset_len(down);
        lemma_multiset_empty_len(changes.to_multiset());
        lemma_multiset_empty_len(up.to_multiset());
        lemma_multiset_empty_len(down.to_multiset());
        assert(up.to_multiset().add(down.to_multiset()) =~= changes.to_multiset());
    } else {
        let front = changes.drop_last();
        let last = changes.last();
        lemma_sides_share_out_the_changes(front);
        assert(changes =~= front.push(last));
        let front_up = changes_on(front, Slope::Ascent);
        let front_down = changes_on(front, Slope::Descent);
        to_multiset_build(front, last);
        if slope_of(last) == Slope::Ascent {
            assert(up == front_up.push(last));
            assert(down == front_down);
            to_multiset_build(front_up, last);
            assert(front_up.to_multiset().insert(last).add(front_down.to_multiset())
                =~= front_up.to_multiset().add(front_down.to_multiset()).insert(last));
        } else {
            assert(up == front_up);
            assert(down == front_down.push(last));
            to_multiset_build(front_down, last);
            assert(front_up.to_multiset().add(front_down.to_multiset().insert(last))
                =~= front_up.to_multiset().add(front_down.to_multiset()).insert(last));
        }
    }
}

/// Where all changes of a series count on one side, that side holds the
/// whole series and the other side holds nothing. So does, on both sides, the
/// empty series.
pub proof fn lemma_one_sided(changes: Seq<u64>, slope: Slope)
    requires
        forall|i: int| 0 <= i < changes.len() ==> slope_of(#[trigger] changes[i]) == slope,
    ensures
        changes_on(changes, slope) == changes,
        changes_on(changes, other_side(slope)).len() == 0,
    decreases changes.len(),
{
    reveal(Seq::filter);
    if changes.len() > 0 {
        lemma_one_sided(changes.drop_last(), slope);
        assert(changes =~= changes.drop_last().push(changes.last()));
    }
}

} // verus!

//! The slot allocator: a per-attempt-index "open capacity" state consumed
//! by draws.
//!
//! A draw with success chance `chance` tries to land in the earliest still
//! open slot; the probability mass of a statistically exhausted slot
//! carries forward to the next one.  The expected quantity gained equals
//! exactly the total capacity consumed.

use crate::fx::{
    fxmul, lemma_mul_down_in_unit, lemma_mul_down_monotone_left, lemma_mul_down_monotone_right,
    mul_down, SCALE,
};
use vstd::prelude::*;

verus! {

/// Remaining open-slot probability mass for the first, second and third
/// draw attempt.
pub struct Capacity {
    pub slot0: i64,
    pub slot1: i64,
    pub slot2: i64,
}

impl View for Capacity {
    type V = Seq<int>;

    open spec fn view(&self) -> Seq<int> {
        seq![self.slot0 as int, self.slot1 as int, self.slot2 as int]
    }
}

/// A well-formed capacity state: three slots, each in `[0, 1]`.
pub open spec fn caps_wf(c: Seq<int>) -> bool {
    &&& c.len() == 3
    &&& forall|i: int| 0 <= i < 3 ==> 0 <= #[trigger] c[i] <= SCALE
}

/// The carry factor in front of slot `i`: the chance that every earlier
/// slot was already exhausted.
pub open spec fn carry_at(c: Seq<int>, i: int) -> int
    decreases i,
{
    if i <= 0 {
        SCALE as int
    } else {
        mul_down(carry_at(c, i - 1), SCALE - c[i - 1])
    }
}

/// The expected quantity a draw with chance `chance` adds to slot `i`.
pub open spec fn slot_added(c: Seq<int>, chance: int, i: int) -> int {
    mul_down(mul_down(c[i], chance), carry_at(c, i))
}

/// The total expected quantity one draw adds over the three slots.
pub open spec fn consume_total(c: Seq<int>, chance: int) -> int {
    slot_added(c, chance, 0) + slot_added(c, chance, 1) + slot_added(c, chance, 2)
}

/// The capacity state left behind by one draw.
pub open spec fn consume_caps(c: Seq<int>, chance: int) -> Seq<int> {
    seq![
        c[0] - slot_added(c, chance, 0),
        c[1] - slot_added(c, chance, 1),
        c[2] - slot_added(c, chance, 2),
    ]
}

/// Carries are probabilities, each slot's gain lies between zero and the
/// slot's remaining capacity, and consumption keeps the state well formed.
pub proof fn lemma_consume_bounds(c: Seq<int>, chance: int)
    requires
        caps_wf(c),
        0 <= chance <= SCALE,
    ensures
        forall|i: int| 0 <= i < 3 ==> 0 <= #[trigger] carry_at(c, i) <= SCALE,
        forall|i: int| 0 <= i < 3 ==> 0 <= #[trigger] slot_added(c, chance, i) <= c[i],
        caps_wf(consume_caps(c, chance)),
        0 <= consume_total(c, chance) <= 3 * SCALE,
{
    assert(carry_at(c, 0) == SCALE as int);
    lemma_mul_down_in_unit(carry_at(c, 0), SCALE - c[0]);
    assert(0 <= carry_at(c, 1) <= SCALE);
    lemma_mul_down_in_unit(carry_at(c, 1), SCALE - c[1]);
    assert(0 <= carry_at(c, 2) <= SCALE);
    assert forall|i: int| 0 <= i < 3 implies 0 <= #[trigger] slot_added(c, chance, i) <= c[i] by {
        lemma_mul_down_in_unit(c[i], chance);
        lemma_mul_down_in_unit(mul_down(c[i], chance), carry_at(c, i));
    }
    assert(caps_wf(consume_caps(c, chance))) by {
        assert(forall|i: int|
            0 <= i < 3 ==> #[trigger] consume_caps(c, chance)[i] == c[i] - slot_added(
                c,
                chance,
                i,
            ));
    }
}

/// The expected gain of a draw never falls when its success chance rises.
pub proof fn lemma_consume_monotone(c: Seq<int>, chance1: int, chance2: int)
    requires
        caps_wf(c),
        0 <= chance1 <= chance2 <= SCALE,
    ensures
        consume_total(c, chance1) <= consume_total(c, chance2),
{
    lemma_consume_bounds(c, chance1);
    lemma_consume_bounds(c, chance2);
    assert forall|i: int| 0 <= i < 3 implies #[trigger] slot_added(c, chance1, i) <= slot_added(
        c,
        chance2,
        i,
    ) by {
        lemma_mul_down_monotone_right(c[i], chance1, chance2);
        lemma_mul_down_monotone_left(mul_down(c[i], chance1), mul_down(c[i], chance2), carry_at(c, i));
    }
}

/// One draw against the capacity state: fills the earliest open slots and
/// returns the expected quantity gained.  The sum of the slots falls by
/// exactly the returned amount, and no slot ever falls below zero.
pub fn apply_probability(remaining: &mut Capacity, chance: i64) -> (added: i64)
    requires
        caps_wf(old(remaining)@),
        0 <= chance <= SCALE,
    ensures
        final(remaining)@ == consume_caps(old(remaining)@, chance as int),
        added == consume_total(old(remaining)@, chance as int),
        old(remaining)@[0] + old(remaining)@[1] + old(remaining)@[2] == final(remaining)@[0]
            + final(remaining)@[1] + final(remaining)@[2] + added,
        caps_wf(final(remaining)@),
        forall|i: int| 0 <= i < 3 ==> final(remaining)@[i] <= old(remaining)@[i],
        0 <= added <= 3 * SCALE,
{
    proof {
        lemma_consume_bounds(old(remaining)@, chance as int);
    }
    let ghost c = remaining@;
    let carry0: i64 = SCALE;
    let added0 = fxmul(fxmul(remaining.slot0, chance), carry0);
    let carry1 = fxmul(carry0, SCALE - remaining.slot0);
    let added1 = fxmul(fxmul(remaining.slot1, chance), carry1);
    let carry2 = fxmul(carry1, SCALE - remaining.slot1);
    let added2 = fxmul(fxmul(remaining.slot2, chance), carry2);
    proof {
        assert(carry_at(c, 0) == SCALE as int);
        assert(carry1 == carry_at(c, 1));
        assert(carry2 == carry_at(c, 2));
        assert(added0 == slot_added(c, chance as int, 0));
        assert(added1 == slot_added(c, chance as int, 1));
        assert(added2 == slot_added(c, chance as int, 2));
    }
    remaining.slot0 = remaining.slot0 - added0;
    remaining.slot1 = remaining.slot1 - added1;
    remaining.slot2 = remaining.slot2 - added2;
    proof {
        assert(remaining@ =~= consume_caps(c, chance as int));
    }
    added0 + added1 + added2
}

} // verus!

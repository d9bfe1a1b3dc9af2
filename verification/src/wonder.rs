//! The cumulative-rarity tracking for Power gifts.
//!
//! `w[i]` follows the chance of having accumulated exactly
//! `wonderful_count + i` top-rank Power gifts so far; every Power draw
//! feeds the rank-3 gain through an exponential decay into the three
//! slots.  Intermediate values may leave the unit interval, so the state
//! is signed; the magnitude bound [`wonder_max`] grows with the number of
//! Power draws, of which a simulation allows at most three.

use crate::fx::{
    fxmul, lemma_mul_down_abs, lemma_powhalf_bounds, mul_down, powhalf, spec_powhalf, SCALE,
};
use vstd::prelude::*;

verus! {

/// Magnitude bound on the wonder slots after `k` Power draws.
pub open spec fn wonder_max(k: int) -> int {
    if k <= 0 {
        0
    } else if k == 1 {
        3 * (SCALE as int)
    } else if k == 2 {
        64 * (SCALE as int)
    } else {
        17_000 * (SCALE as int)
    }
}

/// The wonder distribution after one Power draw whose rank-3 gain is
/// `rank3_chance`, with `wc` top-rank gifts already held at the start.
pub open spec fn wonder_after(w: Seq<int>, rank3_chance: int, wc: int) -> Seq<int> {
    let s = SCALE as int;
    let acc0 = s;
    let sit0 = mul_down(s - w[0], acc0);
    let ap0 = mul_down(mul_down(sit0, rank3_chance), spec_powhalf(wc as nat));
    let acc1 = acc0 - (s - w[0]);
    let sit1 = mul_down(s - w[1], acc1);
    let ap1 = mul_down(mul_down(sit1, rank3_chance), spec_powhalf((wc + 1) as nat));
    let acc2 = acc1 - (s - w[1]);
    let sit2 = mul_down(s - w[2], acc2);
    let ap2 = mul_down(mul_down(sit2, rank3_chance), spec_powhalf((wc + 2) as nat));
    seq![w[0] + ap0, w[1] + ap1, w[2] + ap2]
}

/// One wonder step keeps the slots within the bound of the next draw
/// count.
pub proof fn lemma_wonder_bound(w: Seq<int>, rank3_chance: int, wc: int, k: int)
    requires
        w.len() == 3,
        0 <= k <= 2,
        forall|i: int| 0 <= i < 3 ==> -wonder_max(k) <= #[trigger] w[i] <= wonder_max(k),
        0 <= rank3_chance <= 2 * SCALE,
        0 <= wc,
    ensures
        wonder_after(w, rank3_chance, wc).len() == 3,
        forall|i: int|
            0 <= i < 3 ==> -wonder_max(k + 1) <= #[trigger] wonder_after(w, rank3_chance, wc)[i]
                <= wonder_max(k + 1),
{
    let s = SCALE as int;
    let acc0 = s;
    let sit0 = mul_down(s - w[0], acc0);
    let acc1 = acc0 - (s - w[0]);
    let sit1 = mul_down(s - w[1], acc1);
    let acc2 = acc1 - (s - w[1]);
    let sit2 = mul_down(s - w[2], acc2);
    lemma_powhalf_bounds(wc as nat);
    lemma_powhalf_bounds((wc + 1) as nat);
    lemma_powhalf_bounds((wc + 2) as nat);
    if k == 0 {
        lemma_mul_down_abs(s - w[0], acc0, 1_000_000_000, 1_000_000_000);
        lemma_mul_down_abs(s - w[1], acc1, 1_000_000_000, 1_000_000_000);
        lemma_mul_down_abs(s - w[2], acc2, 1_000_000_000, 1_000_000_000);
        lemma_mul_down_abs(sit0, rank3_chance, 1_000_000_001, 2_000_000_000);
        lemma_mul_down_abs(sit1, rank3_chance, 1_000_000_001, 2_000_000_000);
        lemma_mul_down_abs(sit2, rank3_chance, 1_000_000_001, 2_000_000_000);
        lemma_mul_down_abs(
            mul_down(sit0, rank3_chance),
            spec_powhalf(wc as nat),
            2_000_000_003,
            1_000_000_000,
        );
        lemma_mul_down_abs(
            mul_down(sit1, rank3_chance),
            spec_powhalf((wc + 1) as nat),
            2_000_000_003,
            1_000_000_000,
        );
        lemma_mul_down_abs(
            mul_down(sit2, rank3_chance),
            spec_powhalf((wc + 2) as nat),
            2_000_000_003,
            1_000_000_000,
        );
    } else if k == 1 {
        lemma_mul_down_abs(s - w[0], acc0, 4_000_000_000, 7_000_000_000);
        lemma_mul_down_abs(s - w[1], acc1, 4_000_000_000, 7_000_000_000);
        lemma_mul_down_abs(s - w[2], acc2, 4_000_000_000, 7_000_000_000);
        lemma_mul_down_abs(sit0, rank3_chance, 28_000_000_001, 2_000_000_000);
        lemma_mul_down_abs(sit1, rank3_chance, 28_000_000_001, 2_000_000_000);
        lemma_mul_down_abs(sit2, rank3_chance, 28_000_000_001, 2_000_000_000);
        lemma_mul_down_abs(
            mul_down(sit0, rank3_chance),
            spec_powhalf(wc as nat),
            56_000_000_003,
            1_000_000_000,
        );
        lemma_mul_down_abs(
            mul_down(sit1, rank3_chance),
            spec_powhalf((wc + 1) as nat),
            56_000_000_003,
            1_000_000_000,
        );
        lemma_mul_down_abs(
            mul_down(sit2, rank3_chance),
            spec_powhalf((wc + 2) as nat),
            56_000_000_003,
            1_000_000_000,
        );
    } else {
        lemma_mul_down_abs(s - w[0], acc0, 65_000_000_000, 129_000_000_000);
        lemma_mul_down_abs(s - w[1], acc1, 65_000_000_000, 129_000_000_000);
        lemma_mul_down_abs(s - w[2], acc2, 65_000_000_000, 129_000_000_000);
        lemma_mul_down_abs(sit0, rank3_chance, 8_385_000_000_001, 2_000_000_000);
        lemma_mul_down_abs(sit1, rank3_chance, 8_385_000_000_001, 2_000_000_000);
        lemma_mul_down_abs(sit2, rank3_chance, 8_385_000_000_001, 2_000_000_000);
        lemma_mul_down_abs(
            mul_down(sit0, rank3_chance),
            spec_powhalf(wc as nat),
            16_770_000_000_003,
            1_000_000_000,
        );
        lemma_mul_down_abs(
            mul_down(sit1, rank3_chance),
            spec_powhalf((wc + 1) as nat),
            16_770_000_000_003,
            1_000_000_000,
        );
        lemma_mul_down_abs(
            mul_down(sit2, rank3_chance),
            spec_powhalf((wc + 2) as nat),
            16_770_000_000_003,
            1_000_000_000,
        );
    }
}

/// The wonder distribution carried through one simulation.
pub struct Wonder {
    pub w0: i64,
    pub w1: i64,
    pub w2: i64,
}

impl View for Wonder {
    type V = Seq<int>;

    open spec fn view(&self) -> Seq<int> {
        seq![self.w0 as int, self.w1 as int, self.w2 as int]
    }
}

impl Wonder {
    pub fn zero() -> (r: Wonder)
        ensures
            r@ == seq![0int, 0int, 0int],
    {
        let r = Wonder { w0: 0, w1: 0, w2: 0 };
        proof {
            assert(r@ =~= seq![0int, 0int, 0int]);
        }
        r
    }

    /// The running total over the three slots, which overwrites Power's
    /// rank-3 count after each Power draw.
    pub fn total(&self) -> (r: i64)
        requires
            -17_000 * SCALE <= self.w0 <= 17_000 * SCALE,
            -17_000 * SCALE <= self.w1 <= 17_000 * SCALE,
            -17_000 * SCALE <= self.w2 <= 17_000 * SCALE,
        ensures
            r == self@[0] + self@[1] + self@[2],
    {
        self.w0 + self.w1 + self.w2
    }
}

/// Applies one Power draw to the wonder distribution.
pub fn wonder_update(w: &mut Wonder, rank3_chance: i64, wonderful_count: usize)
    requires
        -64 * SCALE <= old(w).w0 <= 64 * SCALE,
        -64 * SCALE <= old(w).w1 <= 64 * SCALE,
        -64 * SCALE <= old(w).w2 <= 64 * SCALE,
        0 <= rank3_chance <= 2 * SCALE,
        wonderful_count <= 4,
    ensures
        final(w)@ == wonder_after(old(w)@, rank3_chance as int, wonderful_count as int),
{
    let ph0 = powhalf(wonderful_count);
    let ph1 = powhalf(wonderful_count + 1);
    let ph2 = powhalf(wonderful_count + 2);
    let acc0: i64 = SCALE;
    let sit0 = fxmul(SCALE - w.w0, acc0);
    proof {
        lemma_mul_down_abs((SCALE - w.w0) as int, acc0 as int, 65_000_000_000, 129_000_000_000);
    }
    let t0 = fxmul(sit0, rank3_chance);
    proof {
        lemma_mul_down_abs(sit0 as int, rank3_chance as int, 8_385_000_000_001, 2_000_000_000);
    }
    let ap0 = fxmul(t0, ph0);
    let acc1 = acc0 - (SCALE - w.w0);
    let sit1 = fxmul(SCALE - w.w1, acc1);
    proof {
        lemma_mul_down_abs((SCALE - w.w1) as int, acc1 as int, 65_000_000_000, 129_000_000_000);
    }
    let t1 = fxmul(sit1, rank3_chance);
    proof {
        lemma_mul_down_abs(sit1 as int, rank3_chance as int, 8_385_000_000_001, 2_000_000_000);
    }
    let ap1 = fxmul(t1, ph1);
    let acc2 = acc1 - (SCALE - w.w1);
    let sit2 = fxmul(SCALE - w.w2, acc2);
    proof {
        lemma_mul_down_abs((SCALE - w.w2) as int, acc2 as int, 65_000_000_000, 129_000_000_000);
    }
    let t2 = fxmul(sit2, rank3_chance);
    proof {
        lemma_mul_down_abs(sit2 as int, rank3_chance as int, 8_385_000_000_001, 2_000_000_000);
    }
    let ap2 = fxmul(t2, ph2);
    proof {
        lemma_mul_down_abs(t0 as int, ph0 as int, 16_770_000_000_003, 1_000_000_000);
        lemma_mul_down_abs(t1 as int, ph1 as int, 16_770_000_000_003, 1_000_000_000);
        lemma_mul_down_abs(t2 as int, ph2 as int, 16_770_000_000_003, 1_000_000_000);
    }
    w.w0 = w.w0 + ap0;
    w.w1 = w.w1 + ap1;
    w.w2 = w.w2 + ap2;
    proof {
        assert(w@ =~= wonder_after(old(w)@, rank3_chance as int, wonderful_count as int));
    }
}

} // verus!

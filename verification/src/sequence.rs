//! The abstract model of one draw sequence: per-draw state transition,
//! the fold over an order, and its structural laws.
//!
//! A simulation state carries the capacity vector, one draw counter and
//! one expected-count row per category, the wonder distribution, and a
//! failure flag.  A draw of a category whose counter already reached
//! three marks the run failed; a correct caller never constructs such an
//! order.

use crate::capacity::{caps_wf, consume_caps, consume_total, lemma_consume_bounds};
use crate::fx::{lemma_mul_down_in_unit, lemma_mul_down_monotone_right, mul_down, SCALE};
use crate::gift::{gift_index, lemma_probability_bounds, spec_chosen, spec_rank_up, Chapter, GiftType};
use crate::rank::{table_bounded, RANK_BOUND};
use crate::wonder::{lemma_wonder_bound, wonder_after, wonder_max};
use vstd::arithmetic::div_mod::lemma_div_is_ordered;
use vstd::prelude::*;

verus! {

/// The abstract state of one simulation run.
pub struct SimState {
    /// Remaining open-slot mass per attempt index (three entries).
    pub capacity: Seq<int>,
    /// Draws taken so far per category (six entries).
    pub counts: Seq<int>,
    /// Accumulated expected counts per category and rank (six rows of
    /// three).
    pub ranks: Seq<Seq<int>>,
    /// The wonder distribution (three entries).
    pub wonder: Seq<int>,
    /// Set once a category is drawn a fourth time; never cleared.
    pub failed: bool,
}

/// Shape and magnitude invariants that every reachable state satisfies.
pub open spec fn state_wf(st: SimState) -> bool {
    &&& st.capacity.len() == 3
    &&& caps_wf(st.capacity)
    &&& st.counts.len() == 6
    &&& (forall|i: int| 0 <= i < 6 ==> 0 <= #[trigger] st.counts[i] <= 3)
    &&& st.ranks.len() == 6
    &&& (forall|i: int| 0 <= i < 6 ==> #[trigger] st.ranks[i].len() == 3)
    &&& st.wonder.len() == 3
    &&& (forall|i: int|
        0 <= i < 3 ==> -wonder_max(st.counts[0]) <= #[trigger] st.wonder[i] <= wonder_max(
            st.counts[0],
        ))
    &&& (forall|i: int, j: int|
        0 <= i < 6 && 0 <= j < 3 && !(i == 0 && j == 2) ==> 0 <= #[trigger] st.ranks[i][j] <= 2
            * SCALE + st.counts[i] * 3_000_000_000)
    &&& -(SCALE + 3 * wonder_max(st.counts[0])) <= st.ranks[0][2] <= SCALE + 3 * wonder_max(
        st.counts[0],
    )
}

/// One draw of category `g`: consume capacity by the attempt's chance,
/// accumulate the rank gains, track the wonder distribution for Power,
/// and advance the category's counter.  A fourth draw of a category only
/// sets the failure flag.
pub open spec fn sim_step(st: SimState, karma: int, g: GiftType, wc: int, chapter: Chapter) -> SimState {
    let gi = gift_index(g);
    if st.failed || st.counts[gi] >= 3 {
        SimState {
            capacity: st.capacity,
            counts: st.counts,
            ranks: st.ranks,
            wonder: st.wonder,
            failed: true,
        }
    } else {
        let chance = spec_chosen(karma, g, chapter)[st.counts[gi]];
        let caps2 = consume_caps(st.capacity, chance);
        let added = consume_total(st.capacity, chance);
        let rup = spec_rank_up(karma, g, chapter);
        let rank2_added = mul_down(added, rup[0]);
        let rank3_added = mul_down(rank2_added, rup[1]);
        let row = st.ranks[gi];
        let row2 = seq![row[0] + added, row[1] + rank2_added, row[2] + rank3_added];
        let counts2 = st.counts.update(gi, st.counts[gi] + 1);
        if g == GiftType::Power {
            let w2 = wonder_after(st.wonder, rank3_added, wc);
            let row3 = seq![row2[0], row2[1], w2[0] + w2[1] + w2[2]];
            SimState {
                capacity: caps2,
                counts: counts2,
                ranks: st.ranks.update(gi, row3),
                wonder: w2,
                failed: false,
            }
        } else {
            SimState {
                capacity: caps2,
                counts: counts2,
                ranks: st.ranks.update(gi, row2),
                wonder: st.wonder,
                failed: false,
            }
        }
    }
}

/// The fold of [`sim_step`] over an order, front to back.
pub open spec fn sim_run(
    st: SimState,
    karma: int,
    order: Seq<GiftType>,
    wc: int,
    chapter: Chapter,
) -> SimState
    decreases order.len(),
{
    if order.len() == 0 {
        st
    } else {
        sim_run(sim_step(st, karma, order[0], wc, chapter), karma, order.skip(1), wc, chapter)
    }
}

/// Running an order extended by one draw is one step after running the
/// order.
pub proof fn lemma_sim_run_snoc(
    st: SimState,
    karma: int,
    order: Seq<GiftType>,
    g: GiftType,
    wc: int,
    chapter: Chapter,
)
    ensures
        sim_run(st, karma, order.push(g), wc, chapter) == sim_step(
            sim_run(st, karma, order, wc, chapter),
            karma,
            g,
            wc,
            chapter,
        ),
    decreases order.len(),
{
    if order.len() == 0 {
        assert(order.push(g)[0] == g);
        assert(order.push(g).skip(1) =~= Seq::<GiftType>::empty());
        assert(sim_run(st, karma, order.push(g), wc, chapter) == sim_run(
            sim_step(st, karma, g, wc, chapter),
            karma,
            order.push(g).skip(1),
            wc,
            chapter,
        ));
        assert(sim_run(sim_step(st, karma, g, wc, chapter), karma, order.push(g).skip(1), wc, chapter)
            == sim_step(st, karma, g, wc, chapter));
        assert(sim_run(st, karma, order, wc, chapter) == st);
    } else {
        assert(order.push(g)[0] == order[0]);
        assert(order.push(g).skip(1) =~= order.skip(1).push(g));
        lemma_sim_run_snoc(
            sim_step(st, karma, order[0], wc, chapter),
            karma,
            order.skip(1),
            g,
            wc,
            chapter,
        );
        assert(sim_run(st, karma, order.push(g), wc, chapter) == sim_run(
            sim_step(st, karma, order[0], wc, chapter),
            karma,
            order.push(g).skip(1),
            wc,
            chapter,
        ));
        assert(sim_run(st, karma, order, wc, chapter) == sim_run(
            sim_step(st, karma, order[0], wc, chapter),
            karma,
            order.skip(1),
            wc,
            chapter,
        ));
    }
}

/// How often a category occurs in an order.
pub open spec fn count_gifts(order: Seq<GiftType>, g: GiftType) -> int
    decreases order.len(),
{
    if order.len() == 0 {
        0
    } else {
        count_gifts(order.drop_last(), g) + if order.last() == g {
            1int
        } else {
            0int
        }
    }
}

/// Extending a prefix by one element raises exactly that element's count.
pub proof fn lemma_count_take_step(order: Seq<GiftType>, g: GiftType, k: int)
    requires
        0 <= k < order.len(),
    ensures
        count_gifts(order.take(k + 1), g) == count_gifts(order.take(k), g) + if order[k] == g {
            1int
        } else {
            0int
        },
{
    assert(order.take(k + 1).drop_last() =~= order.take(k));
    assert(order.take(k + 1).last() == order[k]);
}

/// A prefix never counts more occurrences than the whole order.
pub proof fn lemma_count_prefix_le(order: Seq<GiftType>, g: GiftType, k: int)
    requires
        0 <= k <= order.len(),
    ensures
        count_gifts(order.take(k), g) <= count_gifts(order, g),
    decreases order.len() - k,
{
    if k == order.len() {
        assert(order.take(k) =~= order);
    } else {
        lemma_count_take_step(order, g, k);
        lemma_count_prefix_le(order, g, k + 1);
    }
}

/// On a run that does not fail, every counter advances by exactly the
/// category's occurrences; and a run fails exactly when it starts failed
/// or some category is asked for more than three draws in total.
pub proof fn lemma_sim_run_failure(
    st: SimState,
    karma: int,
    order: Seq<GiftType>,
    wc: int,
    chapter: Chapter,
)
    requires
        st.counts.len() == 6,
        forall|i: int| 0 <= i < 6 ==> #[trigger] st.counts[i] <= 3,
    ensures
        sim_run(st, karma, order, wc, chapter).counts.len() == 6,
        !sim_run(st, karma, order, wc, chapter).failed ==> forall|g: GiftType|
            sim_run(st, karma, order, wc, chapter).counts[gift_index(g)] == st.counts[gift_index(g)]
                + #[trigger] count_gifts(order, g),
        sim_run(st, karma, order, wc, chapter).failed <==> (st.failed || exists|g: GiftType|
            st.counts[gift_index(g)] + #[trigger] count_gifts(order, g) > 3),
    decreases order.len(),
{
    let run = sim_run(st, karma, order, wc, chapter);
    if order.len() == 0 {
        assert(forall|g: GiftType| #[trigger] count_gifts(order, g) == 0);
    } else {
        let d = order.drop_last();
        let x = order.last();
        assert(order =~= d.push(x));
        lemma_sim_run_snoc(st, karma, d, x, wc, chapter);
        lemma_sim_run_failure(st, karma, d, wc, chapter);
        let r = sim_run(st, karma, d, wc, chapter);
        assert(run == sim_step(r, karma, x, wc, chapter));
        assert(forall|g: GiftType|
            #[trigger] count_gifts(order, g) == count_gifts(d, g) + if x == g {
                1int
            } else {
                0int
            });
        let gix = gift_index(x);
        assert(0 <= gix < 6);
        if r.failed {
            if !st.failed {
                let g0 = choose|g: GiftType|
                    st.counts[gift_index(g)] + #[trigger] count_gifts(d, g) > 3;
                assert(st.counts[gift_index(g0)] + count_gifts(order, g0) > 3);
            }
        } else {
            assert(r.counts[gix] == st.counts[gix] + count_gifts(d, x));
            if r.counts[gix] >= 3 {
                assert(st.counts[gift_index(x)] + count_gifts(order, x) > 3);
            } else {
                assert(!run.failed);
                assert forall|g: GiftType| run.counts[gift_index(g)] == st.counts[gift_index(g)]
                    + #[trigger] count_gifts(order, g) by {
                    if g == x {
                        assert(run.counts[gix] == r.counts[gix] + 1);
                    } else {
                        assert(gift_index(g) != gift_index(x));
                        assert(run.counts[gift_index(g)] == r.counts[gift_index(g)]);
                        assert(r.counts[gift_index(g)] == st.counts[gift_index(g)] + count_gifts(
                            d,
                            g,
                        ));
                    }
                }
                assert forall|g: GiftType| st.counts[gift_index(g)] + #[trigger] count_gifts(
                    order,
                    g,
                ) <= 3 by {
                    if g == x {
                        assert(st.counts[gix] + count_gifts(d, x) < 3);
                    } else {
                        assert(count_gifts(order, g) == count_gifts(d, g));
                        assert(st.counts[gift_index(g)] + count_gifts(d, g) <= 3);
                    }
                }
            }
        }
    }
}

/// One step preserves the state invariant.
pub proof fn lemma_sim_step_wf(st: SimState, karma: int, g: GiftType, wc: int, chapter: Chapter)
    requires
        state_wf(st),
        0 <= wc,
    ensures
        state_wf(sim_step(st, karma, g, wc, chapter)),
{
    let gi = gift_index(g);
    let next = sim_step(st, karma, g, wc, chapter);
    if !(st.failed || st.counts[gi] >= 3) {
        let chance = spec_chosen(karma, g, chapter)[st.counts[gi]];
        lemma_probability_bounds(karma, g, chapter);
        assert(0 <= chance <= SCALE);
        lemma_consume_bounds(st.capacity, chance);
        let added = consume_total(st.capacity, chance);
        let rup = spec_rank_up(karma, g, chapter);
        lemma_mul_down_in_unit(added, rup[0]);
        let rank2_added = mul_down(added, rup[0]);
        lemma_mul_down_in_unit(rank2_added, rup[1]);
        let rank3_added = mul_down(rank2_added, rup[1]);
        // The second rank-up chance is at most one half, so the rank-3
        // gain fits the wonder step's bound.
        lemma_mul_down_monotone_right(rank2_added, rup[1], 500_000_000);
        lemma_div_is_ordered(rank2_added * 500_000_000, 1_500_000_000_000_000_000, SCALE as int);
        assert(0 <= rank3_added <= 2 * SCALE);
        if g == GiftType::Power {
            lemma_wonder_bound(st.wonder, rank3_added, wc, st.counts[0]);
        }
        assert(next.counts =~= st.counts.update(gi, st.counts[gi] + 1));
        assert(forall|i: int| 0 <= i < 6 && i != gi ==> next.counts[i] == st.counts[i]);
        assert(forall|i: int| 0 <= i < 6 && i != gi ==> next.ranks[i] == st.ranks[i]);
        if g != GiftType::Power {
            assert(gi != 0);
            assert(next.counts[0] == st.counts[0]);
        }
        assert(state_wf(next));
    }
}

/// A whole run preserves the state invariant.
pub proof fn lemma_sim_run_wf(
    st: SimState,
    karma: int,
    order: Seq<GiftType>,
    wc: int,
    chapter: Chapter,
)
    requires
        state_wf(st),
        0 <= wc,
    ensures
        state_wf(sim_run(st, karma, order, wc, chapter)),
    decreases order.len(),
{
    if order.len() > 0 {
        lemma_sim_step_wf(st, karma, order[0], wc, chapter);
        lemma_sim_run_wf(sim_step(st, karma, order[0], wc, chapter), karma, order.skip(1), wc, chapter);
    }
}

/// After any prefix of the order, every capacity slot still lies between
/// zero and one: pre-seeded consumption and draw consumption can never
/// drive a slot negative.
pub proof fn lemma_capacity_stays_bounded(
    st: SimState,
    karma: int,
    order: Seq<GiftType>,
    wc: int,
    chapter: Chapter,
    k: int,
)
    requires
        state_wf(st),
        0 <= wc,
        0 <= k <= order.len(),
    ensures
        caps_wf(sim_run(st, karma, order.take(k), wc, chapter).capacity),
{
    lemma_sim_run_wf(st, karma, order.take(k), wc, chapter);
}

/// A well-formed state's rank table is within the merge bound.
pub proof fn lemma_wf_table_bounded(st: SimState)
    requires
        state_wf(st),
    ensures
        table_bounded(st.ranks, RANK_BOUND as int),
{
    assert(st.counts[0] <= 3);
    assert(wonder_max(st.counts[0]) <= 17_000_000_000_000);
}

} // verus!

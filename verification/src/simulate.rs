//! The executable sequence simulator: replays an ordered list of
//! category draws against the capacity state and accumulates the
//! expected counts per category and rank.

use crate::capacity::{apply_probability, Capacity};
use crate::fx::{fxmul, lemma_mul_down_monotone_right, SCALE};
use crate::gift::{gift_index, gift_probabilities, lemma_probability_bounds, Chapter, GiftType};
use crate::rank::{table_bounded, AverageRank, GiftRanks, RANK_BOUND};
use crate::capacity::caps_wf;
use crate::sequence::{
    count_gifts, lemma_count_prefix_le, lemma_count_take_step, lemma_capacity_stays_bounded,
    lemma_sim_run_failure, lemma_sim_run_snoc, lemma_sim_step_wf, lemma_wf_table_bounded, sim_run,
    sim_step, state_wf, SimState,
};
use crate::setup::{
    bounty_average_rank, bounty_row, initial_state, lemma_bounty_row_bounds,
    lemma_initial_state_wf, special_tower_initial_sequence, tower_initial_sequence,
};
use crate::wonder::{lemma_wonder_bound, wonder_max, Wonder, wonder_update};
use vstd::arithmetic::div_mod::lemma_div_is_ordered;
use vstd::prelude::*;

verus! {

/// A draw order presented some category more than three times.
#[derive(Copy, Clone, Debug, PartialEq, Eq, Structural)]
pub enum SequenceError {
    InvalidSequence,
}

/// The table a successful simulation returns: the run's accumulated
/// table with the Bounty row written unconditionally at the end.
pub open spec fn sequence_ranks(
    karma: int,
    order: Seq<GiftType>,
    wc: int,
    chapter: Chapter,
) -> Seq<Seq<int>> {
    sim_run(initial_state(karma, wc, chapter), karma, order, wc, chapter).ranks.update(
        5,
        bounty_row(karma, chapter),
    )
}

/// In every chapter, the pre-seeded initial consumption plus the
/// consumption of any prefix of draws never drives a capacity slot
/// below zero (nor above one).
pub proof fn lemma_capacity_never_negative(
    karma: int,
    order: Seq<GiftType>,
    wc: int,
    chapter: Chapter,
    k: int,
)
    requires
        0 <= wc,
        0 <= k <= order.len(),
    ensures
        caps_wf(
            sim_run(
                initial_state(karma, wc, chapter),
                karma,
                order.take(k),
                wc,
                chapter,
            ).capacity,
        ),
{
    lemma_initial_state_wf(karma, wc, chapter);
    lemma_capacity_stays_bounded(initial_state(karma, wc, chapter), karma, order, wc, chapter, k);
}

/// Replays `order` against the chapter's pre-seeded state and returns the
/// expected number of gifts per category and rank, exactly as modelled by
/// [`sequence_ranks`].  Fails with `InvalidSequence` exactly when some
/// category would be drawn a fourth time (in Special Towers the pre-drawn
/// Power gift counts as one blessing draw); Burden and Bounty must never
/// stand in an order.
#[verifier::loop_isolation(false)]
#[verifier::rlimit(100)]
pub fn try_gift_sequence(
    karma: i64,
    order: &[GiftType],
    wonderful_count: usize,
    chapter: Chapter,
) -> (result: Result<GiftRanks, SequenceError>)
    requires
        0 <= karma <= 3 * SCALE,
        wonderful_count <= 4,
        !order@.contains(GiftType::Burden),
        !order@.contains(GiftType::Bounty),
    ensures
        match result {
            Result::Ok(ranks) => {
                &&& forall|g: GiftType|
                    initial_state(
                        karma as int,
                        wonderful_count as int,
                        chapter,
                    ).counts[gift_index(g)] + #[trigger] count_gifts(order@, g) <= 3
                &&& ranks@ == sequence_ranks(karma as int, order@, wonderful_count as int, chapter)
                &&& table_bounded(ranks@, RANK_BOUND as int)
            },
            Result::Err(e) => {
                &&& e == SequenceError::InvalidSequence
                &&& exists|g: GiftType|
                    initial_state(
                        karma as int,
                        wonderful_count as int,
                        chapter,
                    ).counts[gift_index(g)] + #[trigger] count_gifts(order@, g) > 3
            },
        },
{
    let ghost ka: int = karma as int;
    let ghost wc: int = wonderful_count as int;
    let ghost init: SimState = initial_state(ka, wc, chapter);
    proof {
        lemma_initial_state_wf(ka, wc, chapter);
    }

    let (mut remaining, mut result) = match chapter {
        Chapter::Towers => tower_initial_sequence(karma),
        Chapter::SpecialTowers => special_tower_initial_sequence(karma, wonderful_count),
        Chapter::Story | Chapter::AlterStory => (
            Capacity { slot0: SCALE, slot1: SCALE, slot2: SCALE },
            GiftRanks::zero(),
        ),
    };
    // In Special Towers the pre-drawn Power gift counts as a blessing.
    let mut f_power: u8 = 0;
    let mut f_bonus: u8 = 0;
    let mut f_quick: u8 = 0;
    let mut f_blessing: u8 = match chapter {
        Chapter::SpecialTowers => 1,
        _ => 0,
    };
    let mut wonder = Wonder::zero();
    proof {
        assert(remaining@ =~= init.capacity);
        assert(result@ =~~= init.ranks);
        assert(wonder@ =~= init.wonder);
    }

    let mut idx: usize = 0;
    while idx < order.len()
        invariant
            idx <= order.len(),
            !sim_run(init, ka, order@.take(idx as int), wc, chapter).failed,
            state_wf(sim_run(init, ka, order@.take(idx as int), wc, chapter)),
            remaining@ == sim_run(init, ka, order@.take(idx as int), wc, chapter).capacity,
            result@ == sim_run(init, ka, order@.take(idx as int), wc, chapter).ranks,
            wonder@ == sim_run(init, ka, order@.take(idx as int), wc, chapter).wonder,
            f_power as int == sim_run(init, ka, order@.take(idx as int), wc, chapter).counts[0],
            f_bonus as int == sim_run(init, ka, order@.take(idx as int), wc, chapter).counts[1],
            f_quick as int == sim_run(init, ka, order@.take(idx as int), wc, chapter).counts[2],
            f_blessing as int == sim_run(init, ka, order@.take(idx as int), wc, chapter).counts[3],
        decreases order.len() - idx,
    {
        let ghost prefix = order@.take(idx as int);
        let ghost cur = sim_run(init, ka, prefix, wc, chapter);
        let g = order[idx];
        proof {
            assert(order@[idx as int] == g);
            assert(order@.contains(g));
            assert(g != GiftType::Burden);
            assert(g != GiftType::Bounty);
            assert(0 <= gift_index(g) < 6);
        }
        let f: u8 = match g {
            GiftType::Power => f_power,
            GiftType::Bonus => f_bonus,
            GiftType::Quick => f_quick,
            GiftType::Blessing => f_blessing,
            GiftType::Burden | GiftType::Bounty => 0,
        };
        proof {
            assert(f as int == cur.counts[gift_index(g)]);
        }
        if f >= 3 {
            proof {
                lemma_sim_run_failure(init, ka, prefix, wc, chapter);
                lemma_count_take_step(order@, g, idx as int);
                lemma_count_prefix_le(order@, g, idx as int + 1);
                assert(init.counts[gift_index(g)] + count_gifts(order@, g) > 3);
            }
            return Result::Err(SequenceError::InvalidSequence);
        }
        let prob = gift_probabilities(karma, g, chapter);
        proof {
            lemma_probability_bounds(ka, g, chapter);
        }
        let chance = prob.chosen_at(f as usize);
        proof {
            assert(0 <= chance <= SCALE);
        }
        let added = apply_probability(&mut remaining, chance);
        let row = result.get_row(g);
        proof {
            assert(row@ == cur.ranks[gift_index(g)]);
            assert(0 <= cur.ranks[gift_index(g)][0] <= 2 * SCALE + cur.counts[gift_index(g)]
                * 3_000_000_000);
            assert(0 <= cur.ranks[gift_index(g)][1] <= 2 * SCALE + cur.counts[gift_index(g)]
                * 3_000_000_000);
            if g != GiftType::Power {
                assert(0 <= cur.ranks[gift_index(g)][2] <= 2 * SCALE + cur.counts[gift_index(g)]
                    * 3_000_000_000);
            } else {
                assert(-(SCALE + 3 * wonder_max(cur.counts[0])) <= cur.ranks[0][2] <= SCALE + 3
                    * wonder_max(cur.counts[0]));
                assert(wonder_max(cur.counts[0]) <= 17_000_000_000_000);
            }
        }
        let rank2_added = fxmul(added, prob.rank_up0);
        let rank3_added = fxmul(rank2_added, prob.rank_up1);
        let new_row = AverageRank {
            rank1: row.rank1 + added,
            rank2: row.rank2 + rank2_added,
            rank3: row.rank3 + rank3_added,
        };
        result.set_row(g, new_row);
        let is_power: bool = match g {
            GiftType::Power => true,
            _ => false,
        };
        if is_power {
            proof {
                // The second rank-up chance is at most one half, so the
                // rank-3 gain is within the wonder step's bound.
                lemma_mul_down_monotone_right(rank2_added as int, prob.rank_up1 as int, 500_000_000);
                lemma_div_is_ordered(
                    (rank2_added as int) * 500_000_000,
                    1_500_000_000_000_000_000,
                    SCALE as int,
                );
                assert(0 <= rank3_added <= 2 * SCALE);
                assert(wonder_max(cur.counts[0]) <= 64_000_000_000);
            }
            wonder_update(&mut wonder, rank3_added, wonderful_count);
            proof {
                lemma_wonder_bound(cur.wonder, rank3_added as int, wc, cur.counts[0]);
            }
            let wsum = wonder.total();
            result.set_row(
                GiftType::Power,
                AverageRank { rank1: new_row.rank1, rank2: new_row.rank2, rank3: wsum },
            );
        }
        match g {
            GiftType::Power => f_power = f_power + 1,
            GiftType::Bonus => f_bonus = f_bonus + 1,
            GiftType::Quick => f_quick = f_quick + 1,
            GiftType::Blessing => f_blessing = f_blessing + 1,
            GiftType::Burden | GiftType::Bounty => (),
        }
        proof {
            let stepped = sim_step(cur, ka, g, wc, chapter);
            lemma_sim_step_wf(cur, ka, g, wc, chapter);
            lemma_sim_run_snoc(init, ka, prefix, g, wc, chapter);
            assert(order@.take(idx as int + 1) =~= prefix.push(g));
            assert(remaining@ == stepped.capacity);
            assert(result@ =~~= stepped.ranks);
            assert(wonder@ == stepped.wonder);
            assert(f_power as int == stepped.counts[0]);
            assert(f_bonus as int == stepped.counts[1]);
            assert(f_quick as int == stepped.counts[2]);
            assert(f_blessing as int == stepped.counts[3]);
        }
        idx = idx + 1;
    }

    proof {
        assert(order@.take(order.len() as int) =~= order@);
    }
    let ghost fin = sim_run(init, ka, order@, wc, chapter);
    let bounty = bounty_average_rank(karma, chapter);
    result.set_row(GiftType::Bounty, bounty);
    proof {
        lemma_sim_run_failure(init, ka, order@, wc, chapter);
        lemma_bounty_row_bounds(ka, chapter);
        lemma_wf_table_bounded(fin);
        assert(result@ == sequence_ranks(ka, order@, wc, chapter));
        assert forall|i: int, j: int| 0 <= i < 6 && 0 <= j < 3 implies -RANK_BOUND
            <= #[trigger] result@[i][j] <= RANK_BOUND by {
            if i == 5 {
                assert(result@[5] == bounty_row(ka, chapter));
            } else {
                assert(result@[i] == fin.ranks[i]);
            }
        }
        assert(table_bounded(result@, RANK_BOUND as int));
    }
    Result::Ok(result)
}

} // verus!

//! Chapter-specific initial state: pre-seeded capacity and rank tables,
//! and the Bounty row that every simulation writes last.

use crate::capacity::{caps_wf, Capacity};
use crate::fx::{
    fxmul, lemma_mul_down_in_unit, lemma_powhalf_bounds, mul_down, powhalf, spec_powhalf, SCALE,
};
use crate::gift::{
    bounty_chosen, bounty_rank_up, gift_index, gift_probabilities, lemma_probability_bounds,
    power_chosen, power_rank_up, quick_rank_up, spec_chosen, spec_rank_up, Chapter, GiftType,
};
use crate::rank::{
    lemma_merge_val_between, merge, merge_table, merge_val, table_bounded, zero_table, AverageRank,
    GiftRanks, RANK_BOUND,
};
use crate::sequence::{state_wf, SimState};
use vstd::arithmetic::div_mod::lemma_div_is_ordered;
use vstd::prelude::*;

verus! {

/// Bounty's expected counts, computed straight from its chance record:
/// it is never placed in a draw order.
pub open spec fn bounty_row(karma: int, chapter: Chapter) -> Seq<int> {
    let c0 = bounty_chosen(karma, chapter)[0];
    let rup = bounty_rank_up(karma, chapter);
    let r2 = mul_down(c0, rup[0]);
    seq![c0, r2, mul_down(r2, rup[1])]
}

/// The Bounty row is made of probabilities.
pub proof fn lemma_bounty_row_bounds(karma: int, chapter: Chapter)
    ensures
        bounty_row(karma, chapter).len() == 3,
        forall|j: int| 0 <= j < 3 ==> 0 <= #[trigger] bounty_row(karma, chapter)[j] <= SCALE,
{
    lemma_probability_bounds(karma, GiftType::Bounty, chapter);
    let c0 = bounty_chosen(karma, chapter)[0];
    let rup = bounty_rank_up(karma, chapter);
    lemma_mul_down_in_unit(c0, rup[0]);
    lemma_mul_down_in_unit(mul_down(c0, rup[0]), rup[1]);
}

/// The Bounty row of one karma value and chapter.
pub fn bounty_average_rank(karma: i64, chapter: Chapter) -> (r: AverageRank)
    requires
        0 <= karma <= 3 * SCALE,
    ensures
        r@ == bounty_row(karma as int, chapter),
{
    let prob = gift_probabilities(karma, GiftType::Bounty, chapter);
    proof {
        lemma_probability_bounds(karma as int, GiftType::Bounty, chapter);
    }
    let rank1 = prob.chosen0;
    let rank2 = fxmul(rank1, prob.rank_up0);
    let rank3 = fxmul(rank2, prob.rank_up1);
    let r = AverageRank { rank1, rank2, rank3 };
    proof {
        assert(r@ =~= bounty_row(karma as int, chapter));
    }
    r
}

/// The blessing found in the Towers pre-draw: always present, ranking up
/// with Quick's chances.
pub open spec fn tower_blessing_row(karma: int) -> Seq<int> {
    let rup = quick_rank_up(karma, Chapter::Towers);
    seq![SCALE as int, rup[0], mul_down(rup[0], rup[1])]
}

/// The chance that the Towers pre-draw finds two gifts instead of one.
pub open spec fn tower_two_gift_chance(karma: int) -> int {
    power_chosen(karma, Chapter::Towers)[1]
}

/// Pre-draw outcome if only one gift is found: one blessing, and one
/// burden that has a quarter chance of ranking one below the blessing.
pub open spec fn tower_one_gift_table(karma: int) -> Seq<Seq<int>> {
    let b = tower_blessing_row(karma);
    let rank2_only = b[1] - b[2];
    let burden = seq![
        SCALE as int,
        b[1] - mul_down(rank2_only, 250_000_000),
        mul_down(b[2], 750_000_000),
    ];
    zero_table().update(3, b).update(4, burden)
}

/// Pre-draw outcome if two gifts are found: the blessing row doubled, and
/// a burden that reaches rank 3 unless neither blessing did.
pub open spec fn tower_two_gift_table(karma: int) -> Seq<Seq<int>> {
    let b = tower_blessing_row(karma);
    let s = SCALE as int;
    let burden = seq![s, s, s - mul_down(s - b[2], s - b[2])];
    zero_table().update(3, seq![2 * b[0], 2 * b[1], 2 * b[2]]).update(4, burden)
}

pub open spec fn tower_initial_ranks(karma: int) -> Seq<Seq<int>> {
    merge_table(
        tower_two_gift_table(karma),
        tower_one_gift_table(karma),
        tower_two_gift_chance(karma),
    )
}

pub open spec fn tower_initial_capacity(karma: int) -> Seq<int> {
    seq![0, 0, (SCALE as int) - tower_two_gift_chance(karma)]
}

/// The Towers pre-draw: blessings and burdens found before the draw
/// sequence, and the capacity they consume.
pub fn tower_initial_sequence(karma: i64) -> (r: (Capacity, GiftRanks))
    requires
        0 <= karma <= 3 * SCALE,
    ensures
        r.0@ == tower_initial_capacity(karma as int),
        r.1@ == tower_initial_ranks(karma as int),
{
    let blessing_prob = gift_probabilities(karma, GiftType::Blessing, Chapter::Towers);
    proof {
        lemma_probability_bounds(karma as int, GiftType::Blessing, Chapter::Towers);
    }
    let two_gift_chance = blessing_prob.chosen1;
    let b1 = blessing_prob.rank_up0;
    let b2 = fxmul(b1, blessing_prob.rank_up1);
    let blessing_row = AverageRank { rank1: SCALE, rank2: b1, rank3: b2 };

    // If only one gift is found, the burden has a quarter chance of
    // ranking one below the blessing.
    let blessing_rank2 = b1 - b2;
    let mut one_gift = GiftRanks::zero();
    one_gift.set_row(GiftType::Blessing, blessing_row);
    one_gift.set_row(
        GiftType::Burden,
        AverageRank {
            rank1: SCALE,
            rank2: b1 - fxmul(blessing_rank2, 250_000_000),
            rank3: fxmul(b2, 750_000_000),
        },
    );

    // If two gifts are found, the burden is rank 3 unless neither
    // blessing is.
    let mut two_gifts = GiftRanks::zero();
    two_gifts.set_row(
        GiftType::Blessing,
        AverageRank { rank1: 2 * SCALE, rank2: 2 * b1, rank3: 2 * b2 },
    );
    two_gifts.set_row(
        GiftType::Burden,
        AverageRank { rank1: SCALE, rank2: SCALE, rank3: SCALE - fxmul(SCALE - b2, SCALE - b2) },
    );
    proof {
        assert(one_gift@ =~= tower_one_gift_table(karma as int));
        assert(two_gifts@ =~= tower_two_gift_table(karma as int));
        assert(table_bounded(one_gift@, RANK_BOUND as int));
        assert(table_bounded(two_gifts@, RANK_BOUND as int));
    }
    let gift_ranks = merge(&two_gifts, &one_gift, two_gift_chance);
    let remaining = Capacity { slot0: 0, slot1: 0, slot2: SCALE - two_gift_chance };
    proof {
        assert(remaining@ =~= tower_initial_capacity(karma as int));
    }
    (remaining, gift_ranks)
}

/// The Power gift found in the Special Towers pre-draw, its rank 3
/// damped by the wonder decay.
pub open spec fn special_power_row(karma: int, wc: int) -> Seq<int> {
    let rup = power_rank_up(karma);
    seq![
        SCALE as int,
        rup[0],
        mul_down(mul_down(rup[0], rup[1]), spec_powhalf(wc as nat)),
    ]
}

/// The burden mass split off the pre-drawn Power gift and re-merged
/// downward.
pub open spec fn special_burden_row(karma: int, wc: int) -> Seq<int> {
    let p = special_power_row(karma, wc);
    let half = p[2] / 2;
    seq![p[1] / 3 + half + half, half + half, half]
}

pub open spec fn special_initial_ranks(karma: int, wc: int) -> Seq<Seq<int>> {
    zero_table().update(0, special_power_row(karma, wc)).update(4, special_burden_row(karma, wc))
}

pub open spec fn special_initial_capacity(karma: int, wc: int) -> Seq<int> {
    seq![0, (SCALE as int) - special_burden_row(karma, wc)[0], SCALE as int]
}

/// Bounds needed on the Special Towers pre-draw rows: the burden never
/// consumes more than one slot's capacity.
pub proof fn lemma_special_rows_bounds(karma: int, wc: int)
    requires
        0 <= wc,
    ensures
        forall|j: int| 0 <= j < 3 ==> 0 <= #[trigger] special_power_row(karma, wc)[j] <= SCALE,
        forall|j: int| 0 <= j < 3 ==> 0 <= #[trigger] special_burden_row(karma, wc)[j] <= SCALE,
        special_burden_row(karma, wc)[0] <= 700_000_000,
{
    let rup = power_rank_up(karma);
    lemma_probability_bounds(karma, GiftType::Power, Chapter::Towers);
    assert(0 <= rup[0] <= 800_000_000);
    assert(0 <= rup[1] <= 450_000_000);
    let t = mul_down(rup[0], rup[1]);
    lemma_mul_down_in_unit(rup[0], rup[1]);
    assert(rup[0] * rup[1] <= 800_000_000 * 450_000_000) by (nonlinear_arith)
        requires
            0 <= rup[0] <= 800_000_000,
            0 <= rup[1] <= 450_000_000,
    ;
    lemma_div_is_ordered(rup[0] * rup[1], 360_000_000_000_000_000, SCALE as int);
    assert(t <= 360_000_000);
    lemma_powhalf_bounds(wc as nat);
    lemma_mul_down_in_unit(t, spec_powhalf(wc as nat));
    let p2 = special_power_row(karma, wc)[2];
    assert(0 <= p2 <= 360_000_000);
}

/// The Special Towers pre-draw: an initial Power gift counted as a
/// blessing, the burden split derived from it, and the capacity both
/// consume.
pub fn special_tower_initial_sequence(karma: i64, wonderful_count: usize) -> (r: (
    Capacity,
    GiftRanks,
))
    requires
        0 <= karma <= 3 * SCALE,
        wonderful_count <= 4,
    ensures
        r.0@ == special_initial_capacity(karma as int, wonderful_count as int),
        r.1@ == special_initial_ranks(karma as int, wonderful_count as int),
{
    let power_prob = gift_probabilities(karma, GiftType::Power, Chapter::Towers);
    proof {
        lemma_probability_bounds(karma as int, GiftType::Power, Chapter::Towers);
        lemma_special_rows_bounds(karma as int, wonderful_count as int);
    }
    let p1 = power_prob.rank_up0;
    let p2 = fxmul(fxmul(p1, power_prob.rank_up1), powhalf(wonderful_count));
    let power_row = AverageRank { rank1: SCALE, rank2: p1, rank3: p2 };
    proof {
        assert(power_row@ =~= special_power_row(karma as int, wonderful_count as int));
    }

    let half = ((p2 as u64) / 2) as i64;
    let burden1 = half + half;
    let burden0 = ((p1 as u64) / 3) as i64 + burden1;
    let burden_row = AverageRank { rank1: burden0, rank2: burden1, rank3: half };
    proof {
        assert(burden_row@ =~= special_burden_row(karma as int, wonderful_count as int));
    }

    let mut gift_ranks = GiftRanks::zero();
    gift_ranks.set_row(GiftType::Power, power_row);
    gift_ranks.set_row(GiftType::Burden, burden_row);
    let remaining = Capacity { slot0: 0, slot1: SCALE - burden0, slot2: SCALE };
    proof {
        assert(gift_ranks@ =~= special_initial_ranks(karma as int, wonderful_count as int));
        assert(remaining@ =~= special_initial_capacity(karma as int, wonderful_count as int));
    }
    (remaining, gift_ranks)
}

/// The state a simulation starts from: full capacity in Story and Alter
/// Story, the pre-draw outcome in the tower chapters.  In Special Towers
/// the pre-drawn Power gift counts as a blessing draw.
pub open spec fn initial_state(karma: int, wc: int, chapter: Chapter) -> SimState {
    match chapter {
        Chapter::Towers => SimState {
            capacity: tower_initial_capacity(karma),
            counts: seq![0, 0, 0, 0, 0, 0],
            ranks: tower_initial_ranks(karma),
            wonder: seq![0, 0, 0],
            failed: false,
        },
        Chapter::SpecialTowers => SimState {
            capacity: special_initial_capacity(karma, wc),
            counts: seq![0, 0, 0, 1, 0, 0],
            ranks: special_initial_ranks(karma, wc),
            wonder: seq![0, 0, 0],
            failed: false,
        },
        Chapter::Story | Chapter::AlterStory => SimState {
            capacity: seq![SCALE as int, SCALE as int, SCALE as int],
            counts: seq![0, 0, 0, 0, 0, 0],
            ranks: zero_table(),
            wonder: seq![0, 0, 0],
            failed: false,
        },
    }
}

/// Every chapter's initial state satisfies the simulation invariant.
pub proof fn lemma_initial_state_wf(karma: int, wc: int, chapter: Chapter)
    requires
        0 <= wc,
    ensures
        state_wf(initial_state(karma, wc, chapter)),
        !initial_state(karma, wc, chapter).failed,
{
    let st = initial_state(karma, wc, chapter);
    match chapter {
        Chapter::Towers => {
            lemma_probability_bounds(karma, GiftType::Blessing, Chapter::Towers);
            let b = tower_blessing_row(karma);
            let f = tower_two_gift_chance(karma);
            assert(0 <= f <= SCALE);
            lemma_mul_down_in_unit(b[1], quick_rank_up(karma, Chapter::Towers)[1]);
            assert(0 <= b[2] <= b[1] <= SCALE);
            lemma_mul_down_in_unit(b[1] - b[2], 250_000_000);
            lemma_mul_down_in_unit(b[2], 750_000_000);
            lemma_mul_down_in_unit((SCALE as int) - b[2], (SCALE as int) - b[2]);
            let one = tower_one_gift_table(karma);
            let two = tower_two_gift_table(karma);
            assert forall|i: int, j: int| 0 <= i < 6 && 0 <= j < 3 implies 0 <= #[trigger] st.ranks[i][j]
                <= 2 * SCALE by {
                assert(st.ranks[i][j] == merge_val(two[i][j], one[i][j], f));
                lemma_merge_val_between(two[i][j], one[i][j], f);
                if i == 3 {
                    assert(0 <= one[3][j] <= SCALE);
                    assert(0 <= two[3][j] <= 2 * SCALE);
                } else if i == 4 {
                    assert(0 <= one[4][j] <= SCALE);
                    assert(0 <= two[4][j] <= SCALE);
                } else {
                    assert(one[i][j] == 0);
                    assert(two[i][j] == 0);
                }
            }
            assert(st.ranks[0][2] == merge_val(two[0][2], one[0][2], f));
            assert(one[0][2] == 0);
            assert(two[0][2] == 0);
            lemma_merge_val_between(0, 0, f);
            assert(st.ranks[0][2] == 0);
            assert(caps_wf(st.capacity));
            assert(state_wf(st));
        },
        Chapter::SpecialTowers => {
            lemma_special_rows_bounds(karma, wc);
            assert(caps_wf(st.capacity));
            assert(state_wf(st));
        },
        Chapter::Story | Chapter::AlterStory => {
            assert(caps_wf(st.capacity));
            assert(state_wf(st));
        },
    }
}

} // verus!

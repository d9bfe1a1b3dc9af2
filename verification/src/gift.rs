//! The probability model: gift categories, chapters, and the per-draw
//! success and rank-up chances as clamped linear functions of karma.
//!
//! All chances are fixed-point values on [`SCALE`] (so `350_000_000` is a
//! chance of 0.35) and karma is the normalized difficulty value on the same
//! scale (the raw UI integer times `SCALE / 100`).

use crate::fx::{clamp, fxmul, mul_down, spec_clamp, SCALE};
use vstd::prelude::*;

verus! {

/// The closed set of gift categories.
#[derive(Copy, Clone, Debug, PartialEq, Eq, Structural)]
pub enum GiftType {
    Power,
    Bonus,
    Quick,
    Blessing,
    Burden,
    Bounty,
}

/// The closed set of chapter configurations.
#[derive(Copy, Clone, Debug, PartialEq, Eq, Structural)]
pub enum Chapter {
    Story,
    AlterStory,
    Towers,
    SpecialTowers,
}

/// The position of each category in a six-row result table.
pub open spec fn gift_index(g: GiftType) -> int {
    match g {
        GiftType::Power => 0,
        GiftType::Bonus => 1,
        GiftType::Quick => 2,
        GiftType::Blessing => 3,
        GiftType::Burden => 4,
        GiftType::Bounty => 5,
    }
}

/// Success chances of the first, second and third draw attempt for Power.
pub open spec fn power_chosen(karma: int, chapter: Chapter) -> Seq<int> {
    match chapter {
        Chapter::Story => seq![
            SCALE as int,
            spec_clamp(mul_down(karma, 600_000_000), 100_000_000, 900_000_000),
            spec_clamp(karma - 900_000_000, 0, 900_000_000),
        ],
        Chapter::AlterStory => seq![0, 0, 0],
        Chapter::Towers | Chapter::SpecialTowers => seq![
            SCALE as int,
            spec_clamp(mul_down(karma, 200_000_000), 0, 500_000_000),
            0,
        ],
    }
}

/// Rank-up chances (rank 1 to 2, rank 2 to 3) for Power, the same in every
/// chapter.
pub open spec fn power_rank_up(karma: int) -> Seq<int> {
    seq![
        spec_clamp(120_000_000 + mul_down(karma, 500_000_000), 120_000_000, 800_000_000),
        spec_clamp(mul_down(karma, 400_000_000) - 40_000_000, 0, 450_000_000),
    ]
}

pub open spec fn bonus_chosen(karma: int, chapter: Chapter) -> Seq<int> {
    match chapter {
        Chapter::Story | Chapter::Towers | Chapter::SpecialTowers => seq![
            spec_clamp(100_000_000 + mul_down(karma, 700_000_000), 250_000_000, 900_000_000),
            spec_clamp(mul_down(karma, 700_000_000), 100_000_000, 900_000_000),
            0,
        ],
        Chapter::AlterStory => seq![
            spec_clamp(50_000_000 + mul_down(karma, 300_000_000), 50_000_000, 900_000_000),
            0,
            0,
        ],
    }
}

pub open spec fn bonus_rank_up(karma: int, chapter: Chapter) -> Seq<int> {
    match chapter {
        Chapter::Story | Chapter::Towers | Chapter::SpecialTowers => seq![
            spec_clamp(100_000_000 + mul_down(karma, 700_000_000), 150_000_000, 900_000_000),
            spec_clamp(mul_down(karma, 600_000_000) - 60_000_000, 0, 500_000_000),
        ],
        Chapter::AlterStory => seq![
            spec_clamp(100_000_000 + mul_down(karma, 300_000_000), 150_000_000, 900_000_000),
            spec_clamp(mul_down(karma, 300_000_000) - 60_000_000, 0, 500_000_000),
        ],
    }
}

pub open spec fn quick_chosen(karma: int, chapter: Chapter) -> Seq<int> {
    match chapter {
        Chapter::Story | Chapter::Towers | Chapter::SpecialTowers => seq![
            spec_clamp(100_000_000 + mul_down(karma, 300_000_000), 150_000_000, 500_000_000),
            spec_clamp(50_000_000 + mul_down(karma, 300_000_000), 50_000_000, 500_000_000),
            0,
        ],
        Chapter::AlterStory => seq![
            spec_clamp(50_000_000 + mul_down(karma, 300_000_000), 50_000_000, 900_000_000),
            0,
            0,
        ],
    }
}

pub open spec fn quick_rank_up(karma: int, chapter: Chapter) -> Seq<int> {
    match chapter {
        Chapter::Story => seq![
            spec_clamp(100_000_000 + mul_down(karma, 600_000_000), 150_000_000, 800_000_000),
            spec_clamp(mul_down(karma, 500_000_000) - 60_000_000, 0, 500_000_000),
        ],
        Chapter::Towers | Chapter::SpecialTowers => seq![
            spec_clamp(100_000_000 + mul_down(karma, 600_000_000), 150_000_000, 800_000_000),
            spec_clamp(mul_down(karma, 400_000_000) - 60_000_000, 0, 500_000_000),
        ],
        Chapter::AlterStory => seq![
            spec_clamp(100_000_000 + mul_down(karma, 300_000_000), 150_000_000, 800_000_000),
            spec_clamp(mul_down(karma, 300_000_000) - 60_000_000, 0, 500_000_000),
        ],
    }
}

pub open spec fn bounty_chosen(karma: int, chapter: Chapter) -> Seq<int> {
    match chapter {
        Chapter::Story => seq![
            spec_clamp(mul_down(karma, 200_000_000) - 20_000_000, 0, 300_000_000),
            0,
            0,
        ],
        Chapter::AlterStory => seq![
            spec_clamp(100_000_000 + mul_down(karma - (SCALE as int), 500_000_000),
                200_000_000, 800_000_000),
            0,
            0,
        ],
        Chapter::Towers | Chapter::SpecialTowers => seq![
            spec_clamp(mul_down(karma, 300_000_000), 0, 500_000_000),
            0,
            0,
        ],
    }
}

pub open spec fn bounty_rank_up(karma: int, chapter: Chapter) -> Seq<int> {
    match chapter {
        Chapter::Story => seq![
            spec_clamp(100_000_000 + mul_down(karma, 500_000_000), 100_000_000, 800_000_000),
            spec_clamp(mul_down(karma, 500_000_000) - 50_000_000, 0, 500_000_000),
        ],
        Chapter::AlterStory => seq![
            spec_clamp(200_000_000 + mul_down(karma - (SCALE as int), 500_000_000),
                200_000_000, 800_000_000),
            spec_clamp(100_000_000 + mul_down(karma - (SCALE as int), 400_000_000),
                100_000_000, 500_000_000),
        ],
        Chapter::Towers | Chapter::SpecialTowers => seq![
            spec_clamp(100_000_000 + mul_down(karma, 400_000_000), 100_000_000, 800_000_000),
            spec_clamp(mul_down(karma, 300_000_000) - 50_000_000, 0, 500_000_000),
        ],
    }
}

/// Success chances of the three draw attempts of a category.  Blessing draws
/// with Power's chances; Burden has no chances of its own and resolves to
/// zero.
pub open spec fn spec_chosen(karma: int, g: GiftType, chapter: Chapter) -> Seq<int> {
    match g {
        GiftType::Power => power_chosen(karma, chapter),
        GiftType::Bonus => bonus_chosen(karma, chapter),
        GiftType::Quick => quick_chosen(karma, chapter),
        GiftType::Blessing => power_chosen(karma, chapter),
        GiftType::Burden => seq![0, 0, 0],
        GiftType::Bounty => bounty_chosen(karma, chapter),
    }
}

/// Rank-up chances of a category.  Blessing ranks up with Quick's chances.
pub open spec fn spec_rank_up(karma: int, g: GiftType, chapter: Chapter) -> Seq<int> {
    match g {
        GiftType::Power => power_rank_up(karma),
        GiftType::Bonus => bonus_rank_up(karma, chapter),
        GiftType::Quick => quick_rank_up(karma, chapter),
        GiftType::Blessing => quick_rank_up(karma, chapter),
        GiftType::Burden => seq![0, 0],
        GiftType::Bounty => bounty_rank_up(karma, chapter),
    }
}

/// Every chance of the model is a probability on the scale, and every
/// second rank-up chance is at most one half.
pub proof fn lemma_probability_bounds(karma: int, g: GiftType, chapter: Chapter)
    ensures
        spec_chosen(karma, g, chapter).len() == 3,
        forall|i: int| 0 <= i < 3 ==> 0 <= #[trigger] spec_chosen(karma, g, chapter)[i] <= SCALE,
        spec_rank_up(karma, g, chapter).len() == 2,
        forall|i: int| 0 <= i < 2 ==> 0 <= #[trigger] spec_rank_up(karma, g, chapter)[i] <= SCALE,
        spec_rank_up(karma, g, chapter)[1] <= SCALE / 2,
{
}

/// The chance record of one category in one chapter: `chosen0..chosen2` are
/// the success chances of the first, second and third draw attempt,
/// `rank_up0` and `rank_up1` the chances that a gained gift reaches rank 2
/// and then rank 3.
pub struct Probabilities {
    pub chosen0: i64,
    pub chosen1: i64,
    pub chosen2: i64,
    pub rank_up0: i64,
    pub rank_up1: i64,
}

impl Probabilities {
    pub open spec fn chosen_seq(&self) -> Seq<int> {
        seq![self.chosen0 as int, self.chosen1 as int, self.chosen2 as int]
    }

    pub open spec fn rank_up_seq(&self) -> Seq<int> {
        seq![self.rank_up0 as int, self.rank_up1 as int]
    }

    /// The success chance of attempt `i`.
    pub fn chosen_at(&self, i: usize) -> (r: i64)
        requires
            i < 3,
        ensures
            r == self.chosen_seq()[i as int],
    {
        if i == 0 {
            self.chosen0
        } else if i == 1 {
            self.chosen1
        } else {
            self.chosen2
        }
    }
}

pub fn power_probabilities(karma: i64, chapter: Chapter) -> (p: Probabilities)
    requires
        0 <= karma <= 3 * SCALE,
    ensures
        p.chosen_seq() == power_chosen(karma as int, chapter),
        p.rank_up_seq() == power_rank_up(karma as int),
{
    let rank_up0 = clamp(120_000_000 + fxmul(karma, 500_000_000), 120_000_000, 800_000_000);
    let rank_up1 = clamp(fxmul(karma, 400_000_000) - 40_000_000, 0, 450_000_000);
    let p = match chapter {
        Chapter::Story => Probabilities {
            chosen0: SCALE,
            chosen1: clamp(fxmul(karma, 600_000_000), 100_000_000, 900_000_000),
            chosen2: clamp(karma - 900_000_000, 0, 900_000_000),
            rank_up0,
            rank_up1,
        },
        Chapter::AlterStory => Probabilities {
            chosen0: 0,
            chosen1: 0,
            chosen2: 0,
            rank_up0,
            rank_up1,
        },
        Chapter::Towers | Chapter::SpecialTowers => Probabilities {
            chosen0: SCALE,
            chosen1: clamp(fxmul(karma, 200_000_000), 0, 500_000_000),
            chosen2: 0,
            rank_up0,
            rank_up1,
        },
    };
    proof {
        assert(p.chosen_seq() =~= power_chosen(karma as int, chapter));
        assert(p.rank_up_seq() =~= power_rank_up(karma as int));
    }
    p
}

pub fn bonus_probabilities(karma: i64, chapter: Chapter) -> (p: Probabilities)
    requires
        0 <= karma <= 3 * SCALE,
    ensures
        p.chosen_seq() == bonus_chosen(karma as int, chapter),
        p.rank_up_seq() == bonus_rank_up(karma as int, chapter),
{
    let p = match chapter {
        Chapter::Story | Chapter::Towers | Chapter::SpecialTowers => Probabilities {
            chosen0: clamp(100_000_000 + fxmul(karma, 700_000_000), 250_000_000, 900_000_000),
            chosen1: clamp(fxmul(karma, 700_000_000), 100_000_000, 900_000_000),
            chosen2: 0,
            rank_up0: clamp(100_000_000 + fxmul(karma, 700_000_000), 150_000_000, 900_000_000),
            rank_up1: clamp(fxmul(karma, 600_000_000) - 60_000_000, 0, 500_000_000),
        },
        Chapter::AlterStory => Probabilities {
            chosen0: clamp(50_000_000 + fxmul(karma, 300_000_000), 50_000_000, 900_000_000),
            chosen1: 0,
            chosen2: 0,
            rank_up0: clamp(100_000_000 + fxmul(karma, 300_000_000), 150_000_000, 900_000_000),
            rank_up1: clamp(fxmul(karma, 300_000_000) - 60_000_000, 0, 500_000_000),
        },
    };
    proof {
        assert(p.chosen_seq() =~= bonus_chosen(karma as int, chapter));
        assert(p.rank_up_seq() =~= bonus_rank_up(karma as int, chapter));
    }
    p
}

pub fn quick_probabilities(karma: i64, chapter: Chapter) -> (p: Probabilities)
    requires
        0 <= karma <= 3 * SCALE,
    ensures
        p.chosen_seq() == quick_chosen(karma as int, chapter),
        p.rank_up_seq() == quick_rank_up(karma as int, chapter),
{
    let p = match chapter {
        Chapter::Story | Chapter::Towers | Chapter::SpecialTowers => Probabilities {
            chosen0: clamp(100_000_000 + fxmul(karma, 300_000_000), 150_000_000, 500_000_000),
            chosen1: clamp(50_000_000 + fxmul(karma, 300_000_000), 50_000_000, 500_000_000),
            chosen2: 0,
            rank_up0: clamp(100_000_000 + fxmul(karma, 600_000_000), 150_000_000, 800_000_000),
            rank_up1: match chapter {
                Chapter::Story => clamp(fxmul(karma, 500_000_000) - 60_000_000, 0, 500_000_000),
                _ => clamp(fxmul(karma, 400_000_000) - 60_000_000, 0, 500_000_000),
            },
        },
        Chapter::AlterStory => Probabilities {
            chosen0: clamp(50_000_000 + fxmul(karma, 300_000_000), 50_000_000, 900_000_000),
            chosen1: 0,
            chosen2: 0,
            rank_up0: clamp(100_000_000 + fxmul(karma, 300_000_000), 150_000_000, 800_000_000),
            rank_up1: clamp(fxmul(karma, 300_000_000) - 60_000_000, 0, 500_000_000),
        },
    };
    proof {
        assert(p.chosen_seq() =~= quick_chosen(karma as int, chapter));
        assert(p.rank_up_seq() =~= quick_rank_up(karma as int, chapter));
    }
    p
}

pub fn bounty_probabilities(karma: i64, chapter: Chapter) -> (p: Probabilities)
    requires
        0 <= karma <= 3 * SCALE,
    ensures
        p.chosen_seq() == bounty_chosen(karma as int, chapter),
        p.rank_up_seq() == bounty_rank_up(karma as int, chapter),
{
    let p = match chapter {
        Chapter::Story => Probabilities {
            chosen0: clamp(fxmul(karma, 200_000_000) - 20_000_000, 0, 300_000_000),
            chosen1: 0,
            chosen2: 0,
            rank_up0: clamp(100_000_000 + fxmul(karma, 500_000_000), 100_000_000, 800_000_000),
            rank_up1: clamp(fxmul(karma, 500_000_000) - 50_000_000, 0, 500_000_000),
        },
        Chapter::AlterStory => Probabilities {
            chosen0: clamp(100_000_000 + fxmul(karma - SCALE, 500_000_000), 200_000_000,
                800_000_000),
            chosen1: 0,
            chosen2: 0,
            rank_up0: clamp(200_000_000 + fxmul(karma - SCALE, 500_000_000), 200_000_000,
                800_000_000),
            rank_up1: clamp(100_000_000 + fxmul(karma - SCALE, 400_000_000), 100_000_000,
                500_000_000),
        },
        Chapter::Towers | Chapter::SpecialTowers => Probabilities {
            chosen0: clamp(fxmul(karma, 300_000_000), 0, 500_000_000),
            chosen1: 0,
            chosen2: 0,
            rank_up0: clamp(100_000_000 + fxmul(karma, 400_000_000), 100_000_000, 800_000_000),
            rank_up1: clamp(fxmul(karma, 300_000_000) - 50_000_000, 0, 500_000_000),
        },
    };
    proof {
        assert(p.chosen_seq() =~= bounty_chosen(karma as int, chapter));
        assert(p.rank_up_seq() =~= bounty_rank_up(karma as int, chapter));
    }
    p
}

/// The chance record of any category but Burden, which has none: a caller
/// must not ask for Burden's probabilities.
pub fn gift_probabilities(karma: i64, g: GiftType, chapter: Chapter) -> (p: Probabilities)
    requires
        0 <= karma <= 3 * SCALE,
        g != GiftType::Burden,
    ensures
        p.chosen_seq() == spec_chosen(karma as int, g, chapter),
        p.rank_up_seq() == spec_rank_up(karma as int, g, chapter),
{
    match g {
        GiftType::Power => power_probabilities(karma, chapter),
        GiftType::Bonus => bonus_probabilities(karma, chapter),
        GiftType::Quick => quick_probabilities(karma, chapter),
        GiftType::Bounty => bounty_probabilities(karma, chapter),
        GiftType::Blessing | GiftType::Burden => {
            let power = power_probabilities(karma, chapter);
            let quick = quick_probabilities(karma, chapter);
            Probabilities {
                chosen0: power.chosen0,
                chosen1: power.chosen1,
                chosen2: power.chosen2,
                rank_up0: quick.rank_up0,
                rank_up1: quick.rank_up1,
            }
        },
    }
}

} // verus!

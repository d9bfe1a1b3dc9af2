//! The per-chapter orchestration: fixed draw orders, merging of the two
//! symmetric orders, and the sweep over the sampled karma domain.

use crate::gift::{Chapter, GiftType};
use crate::rank::{merge, merge_table, table_bounded, AverageRank, GiftRanks, RANK_BOUND};
use crate::sequence::count_gifts;
use crate::simulate::{sequence_ranks, try_gift_sequence};
use crate::fx::SCALE;
use vstd::arithmetic::div_mod::lemma_fundamental_div_mod_converse_div;
use vstd::pervasive::unreached;
use vstd::prelude::*;

verus! {

pub open spec fn story_order_a() -> Seq<GiftType> {
    seq![
        GiftType::Power,
        GiftType::Power,
        GiftType::Power,
        GiftType::Bonus,
        GiftType::Bonus,
        GiftType::Quick,
        GiftType::Quick,
    ]
}

pub open spec fn story_order_b() -> Seq<GiftType> {
    seq![
        GiftType::Power,
        GiftType::Power,
        GiftType::Power,
        GiftType::Bonus,
        GiftType::Quick,
        GiftType::Bonus,
        GiftType::Quick,
    ]
}

pub open spec fn alter_story_order() -> Seq<GiftType> {
    seq![GiftType::Bonus, GiftType::Quick]
}

pub open spec fn tower_order_a() -> Seq<GiftType> {
    seq![GiftType::Bonus, GiftType::Quick]
}

pub open spec fn tower_order_b() -> Seq<GiftType> {
    seq![GiftType::Quick, GiftType::Bonus]
}

pub open spec fn special_order_a() -> Seq<GiftType> {
    seq![GiftType::Blessing, GiftType::Bonus, GiftType::Bonus]
}

pub open spec fn special_order_b() -> Seq<GiftType> {
    seq![GiftType::Bonus, GiftType::Bonus, GiftType::Blessing]
}

/// No category occurs more than three times in either Story order.
proof fn lemma_story_order_counts()
    ensures
        forall|g: GiftType| #[trigger] count_gifts(story_order_a(), g) <= 3,
        forall|g: GiftType| #[trigger] count_gifts(story_order_b(), g) <= 3,
{
    reveal_with_fuel(count_gifts, 9);
    let p = GiftType::Power;
    let b = GiftType::Bonus;
    let q = GiftType::Quick;
    assert(story_order_a().drop_last() =~= seq![p, p, p, b, b, q]);
    assert(seq![p, p, p, b, b, q].drop_last() =~= seq![p, p, p, b, b]);
    assert(seq![p, p, p, b, b].drop_last() =~= seq![p, p, p, b]);
    assert(seq![p, p, p, b].drop_last() =~= seq![p, p, p]);
    assert(seq![p, p, p].drop_last() =~= seq![p, p]);
    assert(seq![p, p].drop_last() =~= seq![p]);
    assert(seq![p].drop_last() =~= Seq::<GiftType>::empty());
    assert(story_order_b().drop_last() =~= seq![p, p, p, b, q, b]);
    assert(seq![p, p, p, b, q, b].drop_last() =~= seq![p, p, p, b, q]);
    assert(seq![p, p, p, b, q].drop_last() =~= seq![p, p, p, b]);
}

/// No category occurs more than twice in the two-token orders.
proof fn lemma_short_order_counts()
    ensures
        forall|g: GiftType| #[trigger] count_gifts(alter_story_order(), g) <= 2,
        forall|g: GiftType| #[trigger] count_gifts(tower_order_a(), g) <= 2,
        forall|g: GiftType| #[trigger] count_gifts(tower_order_b(), g) <= 2,
        forall|g: GiftType| #[trigger] count_gifts(special_order_a(), g) <= 2,
        forall|g: GiftType| #[trigger] count_gifts(special_order_b(), g) <= 2,
{
    reveal_with_fuel(count_gifts, 5);
    let s = GiftType::Blessing;
    let b = GiftType::Bonus;
    let q = GiftType::Quick;
    assert(seq![b, q].drop_last() =~= seq![b]);
    assert(seq![b].drop_last() =~= Seq::<GiftType>::empty());
    assert(seq![q, b].drop_last() =~= seq![q]);
    assert(seq![q].drop_last() =~= Seq::<GiftType>::empty());
    assert(seq![s, b, b].drop_last() =~= seq![s, b]);
    assert(seq![s, b].drop_last() =~= seq![s]);
    assert(seq![s].drop_last() =~= Seq::<GiftType>::empty());
    assert(seq![b, b, s].drop_last() =~= seq![b, b]);
    assert(seq![b, b].drop_last() =~= seq![b]);
}

/// The merged Story outcome: both 7-token orders, averaged.
pub open spec fn story_ranks(karma: int, wc: int) -> Seq<Seq<int>> {
    merge_table(
        sequence_ranks(karma, story_order_a(), wc, Chapter::Story),
        sequence_ranks(karma, story_order_b(), wc, Chapter::Story),
        500_000_000,
    )
}

/// The Alter Story outcome: a single two-token order, no merge.
pub open spec fn alter_story_ranks(karma: int) -> Seq<Seq<int>> {
    sequence_ranks(karma, alter_story_order(), 0, Chapter::AlterStory)
}

/// The merged Towers outcome: both two-token orders, averaged.
pub open spec fn tower_ranks(karma: int) -> Seq<Seq<int>> {
    merge_table(
        sequence_ranks(karma, tower_order_a(), 0, Chapter::Towers),
        sequence_ranks(karma, tower_order_b(), 0, Chapter::Towers),
        500_000_000,
    )
}

/// The merged Special Towers outcome: blessing first or last, averaged.
pub open spec fn special_tower_ranks(karma: int, wc: int) -> Seq<Seq<int>> {
    merge_table(
        sequence_ranks(karma, special_order_a(), wc, Chapter::SpecialTowers),
        sequence_ranks(karma, special_order_b(), wc, Chapter::SpecialTowers),
        500_000_000,
    )
}

fn push_story_head(order: &mut Vec<GiftType>)
    requires
        old(order)@.len() == 0,
    ensures
        final(order)@ =~= seq![GiftType::Power, GiftType::Power, GiftType::Power],
{
    order.push(GiftType::Power);
    order.push(GiftType::Power);
    order.push(GiftType::Power);
}

/// The Story simulation: three Power draws, then Bonus and Quick
/// interleaved two ways, the two outcomes averaged.
pub fn story_sequence(karma: i64, wonderful_count: usize) -> (r: GiftRanks)
    requires
        0 <= karma <= 3 * SCALE,
        wonderful_count <= 4,
    ensures
        r@ == story_ranks(karma as int, wonderful_count as int),
        table_bounded(r@, RANK_BOUND as int),
{
    let mut order1: Vec<GiftType> = Vec::new();
    push_story_head(&mut order1);
    order1.push(GiftType::Bonus);
    order1.push(GiftType::Bonus);
    order1.push(GiftType::Quick);
    order1.push(GiftType::Quick);
    let mut order2: Vec<GiftType> = Vec::new();
    push_story_head(&mut order2);
    order2.push(GiftType::Bonus);
    order2.push(GiftType::Quick);
    order2.push(GiftType::Bonus);
    order2.push(GiftType::Quick);
    proof {
        assert(order1@ =~= story_order_a());
        assert(order2@ =~= story_order_b());
        lemma_story_order_counts();
        assert(!story_order_a().contains(GiftType::Burden));
        assert(!story_order_b().contains(GiftType::Burden));
        assert(!story_order_a().contains(GiftType::Bounty));
        assert(!story_order_b().contains(GiftType::Bounty));
    }
    let r1 = match try_gift_sequence(karma, order1.as_slice(), wonderful_count, Chapter::Story) {
        Result::Ok(v) => v,
        Result::Err(_) => {
            proof {
                assert(false);
            }
            unreached()
        },
    };
    let r2 = match try_gift_sequence(karma, order2.as_slice(), wonderful_count, Chapter::Story) {
        Result::Ok(v) => v,
        Result::Err(_) => {
            proof {
                assert(false);
            }
            unreached()
        },
    };
    merge(&r1, &r2, 500_000_000)
}

/// The Alter Story simulation: one Bonus and one Quick draw.
pub fn alter_story_sequence(karma: i64) -> (r: GiftRanks)
    requires
        0 <= karma <= 3 * SCALE,
    ensures
        r@ == alter_story_ranks(karma as int),
        table_bounded(r@, RANK_BOUND as int),
{
    let mut order: Vec<GiftType> = Vec::new();
    order.push(GiftType::Bonus);
    order.push(GiftType::Quick);
    proof {
        assert(order@ =~= alter_story_order());
        lemma_short_order_counts();
        assert(!alter_story_order().contains(GiftType::Burden));
        assert(!alter_story_order().contains(GiftType::Bounty));
    }
    match try_gift_sequence(karma, order.as_slice(), 0, Chapter::AlterStory) {
        Result::Ok(v) => v,
        Result::Err(_) => {
            proof {
                assert(false);
            }
            unreached()
        },
    }
}

/// The Towers simulation: Bonus and Quick in both orders, averaged.
pub fn tower_sequence(karma: i64) -> (r: GiftRanks)
    requires
        0 <= karma <= 3 * SCALE,
    ensures
        r@ == tower_ranks(karma as int),
        table_bounded(r@, RANK_BOUND as int),
{
    let mut order1: Vec<GiftType> = Vec::new();
    order1.push(GiftType::Bonus);
    order1.push(GiftType::Quick);
    let mut order2: Vec<GiftType> = Vec::new();
    order2.push(GiftType::Quick);
    order2.push(GiftType::Bonus);
    proof {
        assert(order1@ =~= tower_order_a());
        assert(order2@ =~= tower_order_b());
        lemma_short_order_counts();
        assert(!tower_order_a().contains(GiftType::Burden));
        assert(!tower_order_b().contains(GiftType::Burden));
        assert(!tower_order_a().contains(GiftType::Bounty));
        assert(!tower_order_b().contains(GiftType::Bounty));
    }
    let r1 = match try_gift_sequence(karma, order1.as_slice(), 0, Chapter::Towers) {
        Result::Ok(v) => v,
        Result::Err(_) => {
            proof {
                assert(false);
            }
            unreached()
        },
    };
    let r2 = match try_gift_sequence(karma, order2.as_slice(), 0, Chapter::Towers) {
        Result::Ok(v) => v,
        Result::Err(_) => {
            proof {
                assert(false);
            }
            unreached()
        },
    };
    merge(&r1, &r2, 500_000_000)
}

/// The Special Towers simulation: the blessing draw first or last among
/// two Bonus draws, averaged.
pub fn special_tower_sequence(karma: i64, wonderful_count: usize) -> (r: GiftRanks)
    requires
        0 <= karma <= 3 * SCALE,
        wonderful_count <= 4,
    ensures
        r@ == special_tower_ranks(karma as int, wonderful_count as int),
        table_bounded(r@, RANK_BOUND as int),
{
    let mut order1: Vec<GiftType> = Vec::new();
    order1.push(GiftType::Blessing);
    order1.push(GiftType::Bonus);
    order1.push(GiftType::Bonus);
    let mut order2: Vec<GiftType> = Vec::new();
    order2.push(GiftType::Bonus);
    order2.push(GiftType::Bonus);
    order2.push(GiftType::Blessing);
    proof {
        assert(order1@ =~= special_order_a());
        assert(order2@ =~= special_order_b());
        lemma_short_order_counts();
        assert(!special_order_a().contains(GiftType::Burden));
        assert(!special_order_b().contains(GiftType::Burden));
        assert(!special_order_a().contains(GiftType::Bounty));
        assert(!special_order_b().contains(GiftType::Bounty));
    }
    let r1 = match try_gift_sequence(
        karma,
        order1.as_slice(),
        wonderful_count,
        Chapter::SpecialTowers,
    ) {
        Result::Ok(v) => v,
        Result::Err(_) => {
            proof {
                assert(false);
            }
            unreached()
        },
    };
    let r2 = match try_gift_sequence(
        karma,
        order2.as_slice(),
        wonderful_count,
        Chapter::SpecialTowers,
    ) {
        Result::Ok(v) => v,
        Result::Err(_) => {
            proof {
                assert(false);
            }
            unreached()
        },
    };
    merge(&r1, &r2, 500_000_000)
}

/// The outcome of the current chapter at one karma value.
#[verifier::opaque]
pub open spec fn chapter_ranks(karma: int, wc: int, chapter: Chapter) -> Seq<Seq<int>> {
    match chapter {
        Chapter::Story => story_ranks(karma, wc),
        Chapter::AlterStory => alter_story_ranks(karma),
        Chapter::Towers => tower_ranks(karma),
        Chapter::SpecialTowers => special_tower_ranks(karma, wc),
    }
}

/// Runs the chapter's simulation at one karma value.
pub fn chapter_sequence(karma: i64, wonderful_count: usize, chapter: Chapter) -> (r: GiftRanks)
    requires
        0 <= karma <= 3 * SCALE,
        wonderful_count <= 4,
    ensures
        r@ == chapter_ranks(karma as int, wonderful_count as int, chapter),
        table_bounded(r@, RANK_BOUND as int),
{
    proof {
        reveal(chapter_ranks);
    }
    match chapter {
        Chapter::Story => story_sequence(karma, wonderful_count),
        Chapter::AlterStory => alter_story_sequence(karma),
        Chapter::Towers => tower_sequence(karma),
        Chapter::SpecialTowers => special_tower_sequence(karma, wonderful_count),
    }
}

/// Which category series are shown: the Bounty series alone when the
/// bounty view is selected, else the chapter's own set, in display
/// order.
pub open spec fn spec_visible_categories(chapter: Chapter, bounty_view: bool) -> Seq<GiftType> {
    if bounty_view {
        seq![GiftType::Bounty]
    } else {
        match chapter {
            Chapter::Story => seq![GiftType::Power, GiftType::Bonus, GiftType::Quick],
            Chapter::AlterStory => seq![GiftType::Bonus, GiftType::Quick],
            Chapter::Towers => seq![
                GiftType::Blessing,
                GiftType::Burden,
                GiftType::Bonus,
                GiftType::Quick,
            ],
            Chapter::SpecialTowers => seq![
                GiftType::Power,
                GiftType::Burden,
                GiftType::Blessing,
                GiftType::Bonus,
            ],
        }
    }
}

/// The categories whose series the caller should present.
pub fn visible_categories(chapter: Chapter, bounty_view: bool) -> (r: Vec<GiftType>)
    ensures
        r@ == spec_visible_categories(chapter, bounty_view),
{
    let mut r: Vec<GiftType> = Vec::new();
    if bounty_view {
        r.push(GiftType::Bounty);
    } else {
        match chapter {
            Chapter::Story => {
                r.push(GiftType::Power);
                r.push(GiftType::Bonus);
                r.push(GiftType::Quick);
            },
            Chapter::AlterStory => {
                r.push(GiftType::Bonus);
                r.push(GiftType::Quick);
            },
            Chapter::Towers => {
                r.push(GiftType::Blessing);
                r.push(GiftType::Burden);
                r.push(GiftType::Bonus);
                r.push(GiftType::Quick);
            },
            Chapter::SpecialTowers => {
                r.push(GiftType::Power);
                r.push(GiftType::Burden);
                r.push(GiftType::Blessing);
                r.push(GiftType::Bonus);
            },
        }
    }
    proof {
        assert(r@ =~= spec_visible_categories(chapter, bounty_view));
    }
    r
}

/// Karma as a fixed-point value: the raw UI integer divided by one
/// hundred.
pub open spec fn karma_of_raw(raw: int) -> int {
    raw * 10_000_000
}

pub fn karma_from_raw(raw: i32) -> (r: i64)
    requires
        0 <= raw <= 300,
    ensures
        r == karma_of_raw(raw as int),
        0 <= r <= 3 * SCALE,
{
    (raw as i64) * 10_000_000
}

/// One expected-count series per category over the sampled karma domain.
pub struct GiftChance {
    pub power: Vec<AverageRank>,
    pub bonus: Vec<AverageRank>,
    pub quick: Vec<AverageRank>,
    pub blessing: Vec<AverageRank>,
    pub burden: Vec<AverageRank>,
    pub bounty: Vec<AverageRank>,
}

/// How many samples the domain `min, min + step, ... <= max` holds.
pub open spec fn sample_count(min: int, max: int, step: int) -> int {
    (max - min) / step + 1
}

/// The expected-count series of every category, one entry per sampled
/// raw karma value `min, min + step, ... <= max`.
#[verifier::loop_isolation(false)]
#[verifier::rlimit(100)]
pub fn recalc_giftchance(min: i32, max: i32, step: i32, wonderful_count: usize, chapter: Chapter) -> (r:
    GiftChance)
    requires
        0 <= min <= max <= 300,
        1 <= step <= 300,
        wonderful_count <= 4,
    ensures
        r.power@.len() == sample_count(min as int, max as int, step as int),
        r.bonus@.len() == r.power@.len(),
        r.quick@.len() == r.power@.len(),
        r.blessing@.len() == r.power@.len(),
        r.burden@.len() == r.power@.len(),
        r.bounty@.len() == r.power@.len(),
        forall|k: int|
            0 <= k < r.power@.len() ==> {
                let table = #[trigger] chapter_ranks(
                    karma_of_raw(min + k * step),
                    wonderful_count as int,
                    chapter,
                );
                &&& r.power@[k]@ == table[0]
                &&& r.bonus@[k]@ == table[1]
                &&& r.quick@[k]@ == table[2]
                &&& r.blessing@[k]@ == table[3]
                &&& r.burden@[k]@ == table[4]
                &&& r.bounty@[k]@ == table[5]
            },
{
    let mut power: Vec<AverageRank> = Vec::new();
    let mut bonus: Vec<AverageRank> = Vec::new();
    let mut quick: Vec<AverageRank> = Vec::new();
    let mut blessing: Vec<AverageRank> = Vec::new();
    let mut burden: Vec<AverageRank> = Vec::new();
    let mut bounty: Vec<AverageRank> = Vec::new();
    let mut raw: i32 = min;
    proof {
        assert(min + power@.len() * step == min) by (nonlinear_arith)
            requires
                power@.len() == 0,
        ;
    }
    while raw <= max
        invariant
            min <= raw <= max + step,
            raw == min + power@.len() * step,
            power@.len() > 0 ==> raw - step <= max,
            bonus@.len() == power@.len(),
            quick@.len() == power@.len(),
            blessing@.len() == power@.len(),
            burden@.len() == power@.len(),
            bounty@.len() == power@.len(),
            forall|k: int|
                0 <= k < power@.len() ==> {
                    let table = #[trigger] chapter_ranks(
                        karma_of_raw(min + k * step),
                        wonderful_count as int,
                        chapter,
                    );
                    &&& power@[k]@ == table[0]
                    &&& bonus@[k]@ == table[1]
                    &&& quick@[k]@ == table[2]
                    &&& blessing@[k]@ == table[3]
                    &&& burden@[k]@ == table[4]
                    &&& bounty@[k]@ == table[5]
                },
        decreases max + step - raw,
    {
        let karma = karma_from_raw(raw);
        let table = chapter_sequence(karma, wonderful_count, chapter);
        let ghost len0 = power@.len() as int;
        proof {
            assert(karma as int == karma_of_raw(min + len0 * step));
        }
        power.push(table.get_row(GiftType::Power));
        bonus.push(table.get_row(GiftType::Bonus));
        quick.push(table.get_row(GiftType::Quick));
        blessing.push(table.get_row(GiftType::Blessing));
        burden.push(table.get_row(GiftType::Burden));
        bounty.push(table.get_row(GiftType::Bounty));
        proof {
            assert(power@.len() * step == len0 * step + step) by (nonlinear_arith)
                requires
                    power@.len() == len0 + 1,
            ;
        }
        raw = raw + step;
    }
    proof {
        let len: int = power@.len() as int;
        let d: int = (max - min) as int;
        let st: int = step as int;
        assert(len >= 1) by {
            if len == 0 {
                assert(power@.len() * step == 0) by (nonlinear_arith)
                    requires
                        power@.len() == 0,
                ;
                assert(raw == min);
            }
        }
        assert((len - 1) * st == len * st - st) by (nonlinear_arith);
        assert(0 <= d - (len - 1) * st < st);
        assert(d == (len - 1) * st + (d - (len - 1) * st));
        lemma_fundamental_div_mod_converse_div(d, st, len - 1, d - (len - 1) * st);
        assert(len == sample_count(min as int, max as int, step as int));
    }
    GiftChance { power, bonus, quick, blessing, burden, bounty }
}

} // verus!

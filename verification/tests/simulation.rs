//! End-to-end checks of the sequence simulator and the chapter
//! orchestration, against values computed by hand from the formula
//! table.

use karma_plot::fx::SCALE;
use karma_plot::gift::{Chapter, GiftType};
use karma_plot::modes::{
    alter_story_sequence, karma_from_raw, recalc_giftchance, story_sequence, tower_sequence,
    visible_categories,
};
use karma_plot::wonder::{wonder_update, Wonder};
use karma_plot::setup::{bounty_average_rank, special_tower_initial_sequence, tower_initial_sequence};
use karma_plot::simulate::{try_gift_sequence, SequenceError};

#[test]
fn alter_story_golden_values_at_unit_karma() {
    // karma 1.00, order Bonus then Quick.  Bonus: chosen 0.35 against
    // full capacity gives 0.35; rank-up 0.4 and 0.24 give 0.14 and
    // 0.0336.  Quick draws the same chances against the remaining
    // capacity [0.65, 1, 1] and also gains exactly 0.35.
    let r = alter_story_sequence(SCALE);
    assert_eq!(r.bonus.rank1, 350_000_000);
    assert_eq!(r.bonus.rank2, 140_000_000);
    assert_eq!(r.bonus.rank3, 33_600_000);
    assert_eq!(r.quick.rank1, 350_000_000);
    assert_eq!(r.quick.rank2, 140_000_000);
    assert_eq!(r.quick.rank3, 33_600_000);
    // Bounty comes straight from its own record: 0.2, 0.04, 0.004.
    assert_eq!(r.bounty.rank1, 200_000_000);
    assert_eq!(r.bounty.rank2, 40_000_000);
    assert_eq!(r.bounty.rank3, 4_000_000);
    // Power never appears in the Alter Story order.
    assert_eq!(r.power.rank1, 0);
    assert_eq!(r.blessing.rank1, 0);
    assert_eq!(r.burden.rank1, 0);
}

#[test]
fn four_draws_of_one_category_fail() {
    let order = [GiftType::Power, GiftType::Power, GiftType::Power, GiftType::Power];
    let result = try_gift_sequence(SCALE, &order, 0, Chapter::Story);
    assert!(matches!(result, Err(SequenceError::InvalidSequence)));
}

#[test]
fn three_draws_of_one_category_succeed() {
    let order = [GiftType::Power, GiftType::Power, GiftType::Power];
    let result = try_gift_sequence(SCALE, &order, 0, Chapter::Story);
    assert!(result.is_ok());
}

#[test]
fn special_towers_pre_draw_counts_as_blessing() {
    // The pre-drawn Power gift occupies one of Blessing's three draws,
    // so three more Blessing draws are one too many.
    let too_many = [GiftType::Blessing, GiftType::Blessing, GiftType::Blessing];
    let result = try_gift_sequence(SCALE, &too_many, 0, Chapter::SpecialTowers);
    assert!(matches!(result, Err(SequenceError::InvalidSequence)));
    let just_enough = [GiftType::Blessing, GiftType::Blessing];
    assert!(try_gift_sequence(SCALE, &just_enough, 0, Chapter::SpecialTowers).is_ok());
}

#[test]
fn bounty_row_is_written_even_without_bounty_draws() {
    let order = [GiftType::Power];
    let result = try_gift_sequence(SCALE, &order, 0, Chapter::Story).unwrap();
    let bounty = bounty_average_rank(SCALE, Chapter::Story);
    assert_eq!(result.bounty, bounty);
    // karma 1.0 in Story: chosen 0.18, rank-ups 0.6 and 0.45.
    assert_eq!(bounty.rank1, 180_000_000);
    assert_eq!(bounty.rank2, 108_000_000);
    assert_eq!(bounty.rank3, 48_600_000);
}

#[test]
fn story_power_draws_at_zero_karma() {
    // karma 0: the first Power draw is certain and exhausts slot 0; the
    // second has chance 0.1 and lands in slot 1; the third has chance 0.
    // Power rank-up chances are 0.12 and 0, so rank 2 accumulates
    // 0.12 * (1 + 0.1) and rank 3 stays zero.
    let r = story_sequence(0, 0);
    assert_eq!(r.power.rank1, 1_100_000_000);
    assert_eq!(r.power.rank2, 132_000_000);
    assert_eq!(r.power.rank3, 0);
}

#[test]
fn tower_pre_draw_at_unit_karma() {
    // karma 1.0: two-gift chance 0.2; blessing ranks [1, 0.7, 0.238].
    let (capacity, ranks) = tower_initial_sequence(SCALE);
    assert_eq!(capacity.slot0, 0);
    assert_eq!(capacity.slot1, 0);
    assert_eq!(capacity.slot2, 800_000_000);
    // Blessing rank 1 merges 2.0 and 1.0 with weight 0.2: 1.2 gifts.
    assert_eq!(ranks.blessing.rank1, 1_200_000_000);
    // Burden rank 1 merges 1.0 and 1.0: exactly one burden.
    assert_eq!(ranks.burden.rank1, SCALE);
    assert_eq!(ranks.power.rank1, 0);
}

#[test]
fn tower_golden_values_at_unit_karma() {
    // karma 1.0: only the third capacity slot survives the pre-draw,
    // with 0.8 open.  Bonus draws at 0.8, Quick at 0.4; whichever comes
    // first consumes its share and leaves the rest, so the two merged
    // orders give (0.64 + 0.384) / 2 to Bonus and (0.064 + 0.32) / 2 to
    // Quick.
    let r = tower_sequence(SCALE);
    assert_eq!(r.bonus.rank1, 512_000_000);
    assert_eq!(r.quick.rank1, 192_000_000);
    assert_eq!(r.blessing.rank1, 1_200_000_000);
}

#[test]
fn special_tower_pre_draw_capacity_stays_in_range() {
    for raw in [0, 50, 100, 200, 300] {
        let karma = karma_from_raw(raw);
        for wc in [0usize, 2, 4] {
            let (capacity, ranks) = special_tower_initial_sequence(karma, wc);
            assert_eq!(capacity.slot0, 0);
            assert!(capacity.slot1 >= 0 && capacity.slot1 <= SCALE);
            assert_eq!(capacity.slot2, SCALE);
            assert_eq!(ranks.power.rank1, SCALE);
            assert!(ranks.burden.rank1 >= 0);
        }
    }
}

#[test]
fn tower_capacity_never_negative_over_domain() {
    // The pre-seeded consumption plus both draws never drive the
    // accumulated expectations negative anywhere in the UI domain.
    for raw in [0, 25, 90, 150, 300] {
        let karma = karma_from_raw(raw);
        let r = tower_sequence(karma);
        for row in [r.power, r.bonus, r.quick, r.blessing, r.burden, r.bounty] {
            assert!(row.rank1 >= 0);
            assert!(row.rank2 >= 0);
        }
    }
}

#[test]
fn recalc_samples_the_domain() {
    let chance = recalc_giftchance(0, 10, 5, 0, Chapter::Story);
    assert_eq!(chance.power.len(), 3);
    assert_eq!(chance.bounty.len(), 3);
    // The two merged orders carry identical Bounty rows, so the merge
    // leaves them untouched.
    for (k, raw) in [0, 5, 10].into_iter().enumerate() {
        let expected = bounty_average_rank(karma_from_raw(raw), Chapter::Story);
        assert_eq!(chance.bounty[k], expected);
    }
}

#[test]
fn wonder_step_from_empty_distribution() {
    // One Power draw with rank-3 gain 0.1 and no gifts held yet: the
    // first slot takes 0.1, the second sees no situation mass, and the
    // third sees mass -1 decayed by 0.25, so it takes -0.025.
    let mut w = Wonder { w0: 0, w1: 0, w2: 0 };
    wonder_update(&mut w, 100_000_000, 0);
    assert_eq!(w.w0, 100_000_000);
    assert_eq!(w.w1, 0);
    assert_eq!(w.w2, -25_000_000);
}

#[test]
fn wonder_step_decays_with_held_gifts() {
    // The same draw with two gifts already held halves twice more.
    let mut w = Wonder { w0: 0, w1: 0, w2: 0 };
    wonder_update(&mut w, 100_000_000, 2);
    assert_eq!(w.w0, 25_000_000);
    assert_eq!(w.w1, 0);
    assert_eq!(w.w2, -6_250_000);
}

#[test]
fn special_tower_pre_draw_exact_split_at_unit_karma() {
    // karma 1.0, no gifts held: Power rank-ups are 0.62 and 0.36, so the
    // pre-drawn gift carries [1, 0.62, 0.2232]; the burden split takes
    // a third of the rank-2 mass and half of the rank-3 mass, re-merged
    // downward.
    let (capacity, ranks) = special_tower_initial_sequence(SCALE, 0);
    assert_eq!(ranks.power.rank1, SCALE);
    assert_eq!(ranks.power.rank2, 620_000_000);
    assert_eq!(ranks.power.rank3, 223_200_000);
    assert_eq!(ranks.burden.rank3, 111_600_000);
    assert_eq!(ranks.burden.rank2, 223_200_000);
    assert_eq!(ranks.burden.rank1, 206_666_666 + 223_200_000);
    assert_eq!(capacity.slot1, SCALE - ranks.burden.rank1);
}

#[test]
fn visible_categories_follow_chapter_and_view() {
    assert_eq!(
        visible_categories(Chapter::Story, false),
        vec![GiftType::Power, GiftType::Bonus, GiftType::Quick],
    );
    assert_eq!(
        visible_categories(Chapter::Towers, false),
        vec![GiftType::Blessing, GiftType::Burden, GiftType::Bonus, GiftType::Quick],
    );
    assert_eq!(
        visible_categories(Chapter::SpecialTowers, false),
        vec![GiftType::Power, GiftType::Burden, GiftType::Blessing, GiftType::Bonus],
    );
    assert_eq!(visible_categories(Chapter::AlterStory, true), vec![GiftType::Bounty]);
}

#[test]
fn recalc_matches_single_chapter_run() {
    let chance = recalc_giftchance(120, 120, 1, 1, Chapter::Story);
    assert_eq!(chance.power.len(), 1);
    let direct = story_sequence(karma_from_raw(120), 1);
    assert_eq!(chance.power[0], direct.power);
    assert_eq!(chance.quick[0], direct.quick);
    assert_eq!(chance.burden[0], direct.burden);
}

#[test]
fn recalc_with_step_one_covers_every_value() {
    let chance = recalc_giftchance(10, 20, 1, 4, Chapter::SpecialTowers);
    assert_eq!(chance.power.len(), 11);
    assert_eq!(chance.burden.len(), 11);
}

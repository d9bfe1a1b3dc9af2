//! Checks of the clamp helper, the halving chain, and the probability
//! formula table at hand-computed points.  All values are fixed-point on
//! `SCALE` (1e9 units per 1.0).

use karma_plot::fx::{clamp, powhalf, SCALE};
use karma_plot::gift::{
    bonus_probabilities, bounty_probabilities, gift_probabilities, power_probabilities,
    quick_probabilities, Chapter, GiftType,
};
use karma_plot::modes::karma_from_raw;

#[test]
fn clamp_basic_values() {
    assert_eq!(clamp(5, 0, 3), 3);
    assert_eq!(clamp(-2, 0, 3), 0);
    assert_eq!(clamp(2, 0, 3), 2);
    assert_eq!(clamp(-7, -5, 5), -5);
}

#[test]
fn clamp_idempotent_on_samples() {
    let samples: [(i64, i64, i64); 5] =
        [(5, 0, 3), (-2, 0, 3), (2, 0, 3), (700, 100, 650), (-1, -1, -1)];
    for (x, lo, hi) in samples {
        let once = clamp(x, lo, hi);
        assert_eq!(clamp(once, lo, hi), once);
    }
}

#[test]
fn powhalf_exact_values() {
    assert_eq!(powhalf(0), SCALE);
    assert_eq!(powhalf(1), 500_000_000);
    assert_eq!(powhalf(2), 250_000_000);
    assert_eq!(powhalf(3), 125_000_000);
    assert_eq!(powhalf(6), 15_625_000);
}

#[test]
fn karma_from_raw_scales_by_hundredth() {
    assert_eq!(karma_from_raw(0), 0);
    assert_eq!(karma_from_raw(100), SCALE);
    assert_eq!(karma_from_raw(300), 3 * SCALE);
    assert_eq!(karma_from_raw(37), 370_000_000);
}

#[test]
fn power_story_at_zero_karma() {
    let p = power_probabilities(0, Chapter::Story);
    assert_eq!(p.chosen0, SCALE);
    assert_eq!(p.chosen1, 100_000_000);
    assert_eq!(p.chosen2, 0);
    assert_eq!(p.rank_up0, 120_000_000);
    assert_eq!(p.rank_up1, 0);
}

#[test]
fn power_story_at_high_karma() {
    // karma 1.5: chosen = [1, clamp(0.9), 0.6], rank-up = [0.8, 0.45]
    let p = power_probabilities(1_500_000_000, Chapter::Story);
    assert_eq!(p.chosen0, SCALE);
    assert_eq!(p.chosen1, 900_000_000);
    assert_eq!(p.chosen2, 600_000_000);
    assert_eq!(p.rank_up0, 800_000_000);
    assert_eq!(p.rank_up1, 450_000_000);
}

#[test]
fn power_alter_story_is_zero() {
    let p = power_probabilities(SCALE, Chapter::AlterStory);
    assert_eq!(p.chosen0, 0);
    assert_eq!(p.chosen1, 0);
    assert_eq!(p.chosen2, 0);
}

#[test]
fn bonus_alter_story_at_unit_karma() {
    // chosen0 = clamp(0.05 + 0.3, 0.05, 0.9) = 0.35
    let p = bonus_probabilities(SCALE, Chapter::AlterStory);
    assert_eq!(p.chosen0, 350_000_000);
    assert_eq!(p.rank_up0, 400_000_000);
    assert_eq!(p.rank_up1, 240_000_000);
}

#[test]
fn quick_rank_up_differs_between_story_and_towers() {
    // karma 1.0: rank_up1 is clamp(-0.06 + 0.5) in Story but
    // clamp(-0.06 + 0.4) in the tower chapters.
    let story = quick_probabilities(SCALE, Chapter::Story);
    let towers = quick_probabilities(SCALE, Chapter::Towers);
    assert_eq!(story.rank_up1, 440_000_000);
    assert_eq!(towers.rank_up1, 340_000_000);
    assert_eq!(story.rank_up0, towers.rank_up0);
}

#[test]
fn bounty_story_at_zero_karma_is_empty() {
    let p = bounty_probabilities(0, Chapter::Story);
    assert_eq!(p.chosen0, 0);
}

#[test]
fn bounty_alter_story_offsets_karma_by_one() {
    // karma 1.0: all three formulas sit at their lower clamp bound.
    let p = bounty_probabilities(SCALE, Chapter::AlterStory);
    assert_eq!(p.chosen0, 200_000_000);
    assert_eq!(p.rank_up0, 200_000_000);
    assert_eq!(p.rank_up1, 100_000_000);
}

#[test]
fn blessing_mixes_power_and_quick() {
    let blessing = gift_probabilities(SCALE, GiftType::Blessing, Chapter::Towers);
    let power = power_probabilities(SCALE, Chapter::Towers);
    let quick = quick_probabilities(SCALE, Chapter::Towers);
    assert_eq!(blessing.chosen0, power.chosen0);
    assert_eq!(blessing.chosen1, power.chosen1);
    assert_eq!(blessing.chosen2, power.chosen2);
    assert_eq!(blessing.rank_up0, quick.rank_up0);
    assert_eq!(blessing.rank_up1, quick.rank_up1);
}

//! Checks of the weighted merge: full weight, no weight, and the exact
//! elementwise average at half weight.

use karma_plot::fx::SCALE;
use karma_plot::rank::{merge, merge_value, AverageRank, GiftRanks};

fn sample_tables() -> (GiftRanks, GiftRanks) {
    let row = |a: i64, b: i64, c: i64| AverageRank { rank1: a, rank2: b, rank3: c };
    let a = GiftRanks {
        power: row(SCALE, 120_000_000, 0),
        bonus: row(350_000_000, 140_000_000, 33_600_000),
        quick: row(150_000_000, 22_500_000, 0),
        blessing: row(0, 0, 0),
        burden: row(0, 0, 0),
        bounty: row(200_000_000, 40_000_000, 4_000_000),
    };
    let b = GiftRanks {
        power: row(1_100_000_000, 132_000_000, 0),
        bonus: row(250_000_000, 100_000_000, 0),
        quick: row(50_000_000, 7_500_000, 0),
        blessing: row(2 * SCALE, 700_000_000, 238_000_000),
        burden: row(SCALE, 584_500_000, 178_500_000),
        bounty: row(200_000_000, 40_000_000, 4_000_000),
    };
    (a, b)
}

#[test]
fn merge_with_full_weight_returns_first() {
    let (a, b) = sample_tables();
    assert_eq!(merge(&a, &b, SCALE), a);
}

#[test]
fn merge_with_no_weight_returns_second() {
    let (a, b) = sample_tables();
    assert_eq!(merge(&a, &b, 0), b);
}

#[test]
fn merge_with_half_weight_averages() {
    let (a, b) = sample_tables();
    let half = merge(&a, &b, SCALE / 2);
    assert_eq!(half.power.rank1, (SCALE + 1_100_000_000) / 2);
    assert_eq!(half.bonus.rank1, (350_000_000 + 250_000_000) / 2);
    assert_eq!(half.bonus.rank3, (33_600_000 + 0) / 2);
    assert_eq!(half.blessing.rank2, (0 + 700_000_000) / 2);
    assert_eq!(half.bounty.rank1, 200_000_000);
}

#[test]
fn merge_value_averages_negative_values() {
    // Power's rank-3 slot may go negative; the average still rounds
    // toward minus infinity.
    assert_eq!(merge_value(-3, -3, SCALE / 2), -3);
    assert_eq!(merge_value(-3, 4, SCALE), -3);
    assert_eq!(merge_value(-3, 4, 0), 4);
}

#[test]
fn merge_value_quarter_weight() {
    // 0.25 * 100 + 0.75 * 200 = 175, exactly representable.
    assert_eq!(merge_value(100_000_000, 200_000_000, 250_000_000), 175_000_000);
}

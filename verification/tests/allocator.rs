//! Checks of the slot allocator: conservation of capacity mass,
//! monotonicity in the draw chance, and the full-chance first draw.

use karma_plot::capacity::{apply_probability, Capacity};
use karma_plot::fx::SCALE;

fn capacity_sum(c: &Capacity) -> i64 {
    c.slot0 + c.slot1 + c.slot2
}

#[test]
fn consumption_conserves_mass() {
    let mut c = Capacity { slot0: SCALE, slot1: 500_000_000, slot2: 250_000_000 };
    let before = capacity_sum(&c);
    let added = apply_probability(&mut c, 300_000_000);
    assert_eq!(before - capacity_sum(&c), added);
    assert!(c.slot0 >= 0 && c.slot1 >= 0 && c.slot2 >= 0);
}

#[test]
fn consumption_conserves_mass_at_extremes() {
    let mut c = Capacity { slot0: 0, slot1: 0, slot2: 0 };
    let added = apply_probability(&mut c, SCALE);
    assert_eq!(added, 0);

    let mut full = Capacity { slot0: SCALE, slot1: SCALE, slot2: SCALE };
    let before = capacity_sum(&full);
    let gained = apply_probability(&mut full, 0);
    assert_eq!(gained, 0);
    assert_eq!(capacity_sum(&full), before);
}

#[test]
fn expected_gain_grows_with_chance() {
    let chances: [i64; 5] = [0, 100_000_000, 450_000_000, 700_000_000, SCALE];
    let mut last: i64 = -1;
    for chance in chances {
        let mut c = Capacity { slot0: 650_000_000, slot1: 900_000_000, slot2: 125_000_000 };
        let added = apply_probability(&mut c, chance);
        assert!(added >= last);
        last = added;
    }
}

#[test]
fn certain_first_draw_exhausts_first_slot() {
    // A chance of exactly 1 against full capacity lands entirely in the
    // first slot and leaves the others untouched.
    let mut c = Capacity { slot0: SCALE, slot1: SCALE, slot2: SCALE };
    let added = apply_probability(&mut c, SCALE);
    assert_eq!(added, SCALE);
    assert_eq!(c.slot0, 0);
    assert_eq!(c.slot1, SCALE);
    assert_eq!(c.slot2, SCALE);
}

#[test]
fn carry_fills_later_slots_when_first_is_exhausted() {
    // With the first slot empty, the whole draw carries into the second.
    let mut c = Capacity { slot0: 0, slot1: SCALE, slot2: SCALE };
    let added = apply_probability(&mut c, 400_000_000);
    assert_eq!(added, 400_000_000);
    assert_eq!(c.slot0, 0);
    assert_eq!(c.slot1, 600_000_000);
    assert_eq!(c.slot2, SCALE);
}

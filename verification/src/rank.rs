//! Expected gift counts per quality rank, and the weighted merge of two
//! result tables.

use crate::fx::{div_scale, SCALE};
use crate::gift::gift_index;
use crate::gift::GiftType;
use vstd::arithmetic::div_mod::{
    lemma_div_is_ordered, lemma_div_multiples_vanish, lemma_fundamental_div_mod,
    lemma_fundamental_div_mod_converse_div,
};
use vstd::arithmetic::mul::lemma_mul_is_commutative;
use vstd::prelude::*;

verus! {

/// Every expected count handled by the engine stays well inside this
/// magnitude, which keeps all merge arithmetic exact.
pub const RANK_BOUND: i64 = 52_000 * SCALE;

/// Expected number of gifts of one category at quality rank 1, 2 and 3.
#[derive(Copy, Clone, Debug, PartialEq, Eq, Structural)]
pub struct AverageRank {
    pub rank1: i64,
    pub rank2: i64,
    pub rank3: i64,
}

impl View for AverageRank {
    type V = Seq<int>;

    open spec fn view(&self) -> Seq<int> {
        seq![self.rank1 as int, self.rank2 as int, self.rank3 as int]
    }
}

impl AverageRank {
    pub fn zero() -> (r: AverageRank)
        ensures
            r@ == zero_row(),
    {
        let r = AverageRank { rank1: 0, rank2: 0, rank3: 0 };
        proof {
            assert(r@ =~= zero_row());
        }
        r
    }
}

pub open spec fn zero_row() -> Seq<int> {
    seq![0, 0, 0]
}

/// One expected-count row per gift category, in the order of
/// [`gift_index`].
#[derive(Copy, Clone, Debug, PartialEq, Eq, Structural)]
pub struct GiftRanks {
    pub power: AverageRank,
    pub bonus: AverageRank,
    pub quick: AverageRank,
    pub blessing: AverageRank,
    pub burden: AverageRank,
    pub bounty: AverageRank,
}

impl View for GiftRanks {
    type V = Seq<Seq<int>>;

    open spec fn view(&self) -> Seq<Seq<int>> {
        seq![self.power@, self.bonus@, self.quick@, self.blessing@, self.burden@, self.bounty@]
    }
}

pub open spec fn zero_table() -> Seq<Seq<int>> {
    seq![zero_row(), zero_row(), zero_row(), zero_row(), zero_row(), zero_row()]
}

/// A six-by-three table whose entries all have magnitude at most `bound`.
pub open spec fn table_bounded(t: Seq<Seq<int>>, bound: int) -> bool {
    &&& t.len() == 6
    &&& forall|i: int| 0 <= i < 6 ==> #[trigger] t[i].len() == 3
    &&& forall|i: int, j: int| 0 <= i < 6 && 0 <= j < 3 ==> -bound <= #[trigger] t[i][j] <= bound
}

impl GiftRanks {
    pub fn zero() -> (r: GiftRanks)
        ensures
            r@ == zero_table(),
    {
        let row = AverageRank::zero();
        let r = GiftRanks {
            power: row,
            bonus: row,
            quick: row,
            blessing: row,
            burden: row,
            bounty: row,
        };
        proof {
            assert(r@ =~= zero_table());
        }
        r
    }

    /// The row of one category.
    pub fn get_row(&self, g: GiftType) -> (r: AverageRank)
        ensures
            r@ == self@[gift_index(g)],
    {
        match g {
            GiftType::Power => self.power,
            GiftType::Bonus => self.bonus,
            GiftType::Quick => self.quick,
            GiftType::Blessing => self.blessing,
            GiftType::Burden => self.burden,
            GiftType::Bounty => self.bounty,
        }
    }

    /// Replaces the row of one category.
    pub fn set_row(&mut self, g: GiftType, row: AverageRank)
        ensures
            final(self)@ == old(self)@.update(gift_index(g), row@),
    {
        match g {
            GiftType::Power => self.power = row,
            GiftType::Bonus => self.bonus = row,
            GiftType::Quick => self.quick = row,
            GiftType::Blessing => self.blessing = row,
            GiftType::Burden => self.burden = row,
            GiftType::Bounty => self.bounty = row,
        }
        proof {
            assert(self@ =~= old(self)@.update(gift_index(g), row@));
        }
    }
}

/// The weighted combination of two values: `f` parts of `x` and
/// `SCALE - f` parts of `y`, scaled back down.
pub open spec fn merge_val(x: int, y: int, f: int) -> int {
    (x * f + y * ((SCALE as int) - f)) / (SCALE as int)
}

/// With the full weight on the left, the merge returns the left value
/// unchanged.
pub proof fn lemma_merge_full_weight(x: int, y: int)
    ensures
        merge_val(x, y, SCALE as int) == x,
{
    let s = SCALE as int;
    assert(x * s + y * (s - s) == s * x) by (nonlinear_arith);
    lemma_div_multiples_vanish(x, s);
}

/// With no weight on the left, the merge returns the right value
/// unchanged.
pub proof fn lemma_merge_zero_weight(x: int, y: int)
    ensures
        merge_val(x, y, 0) == y,
{
    let s = SCALE as int;
    assert(x * 0 + y * (s - 0) == s * y) by (nonlinear_arith);
    lemma_div_multiples_vanish(y, s);
}

/// With half the weight on each side, the merge is the elementwise
/// average (rounding toward minus infinity).
pub proof fn lemma_merge_half_weight(x: int, y: int)
    ensures
        merge_val(x, y, (SCALE as int) / 2) == (x + y) / 2,
{
    let s = SCALE as int;
    let h = s / 2;
    let z = x + y;
    lemma_fundamental_div_mod(z, 2);
    let q = z / 2;
    let r = z % 2;
    assert(x * h + y * h == q * s + r * h) by (nonlinear_arith)
        requires
            z == x + y,
            z == 2 * q + r,
            h == 500_000_000,
            s == 1_000_000_000,
    ;
    lemma_fundamental_div_mod_converse_div(x * h + y * h, s, q, r * h);
}

/// A merged value always lies between its two operands.
pub proof fn lemma_merge_val_between(x: int, y: int, f: int)
    requires
        0 <= f <= SCALE,
    ensures
        x <= y ==> x <= merge_val(x, y, f) <= y,
        y <= x ==> y <= merge_val(x, y, f) <= x,
{
    let s = SCALE as int;
    let lo = if x <= y {
        x
    } else {
        y
    };
    let hi = if x <= y {
        y
    } else {
        x
    };
    assert(lo * s <= x * f + y * (s - f) <= hi * s) by (nonlinear_arith)
        requires
            lo <= x <= hi,
            lo <= y <= hi,
            0 <= f <= s,
            s == 1_000_000_000,
    ;
    lemma_div_is_ordered(lo * s, x * f + y * (s - f), s);
    lemma_div_is_ordered(x * f + y * (s - f), hi * s, s);
    lemma_mul_is_commutative(lo, s);
    lemma_mul_is_commutative(hi, s);
    lemma_div_multiples_vanish(lo, s);
    lemma_div_multiples_vanish(hi, s);
}

/// The merged value of two bounded operands, exactly `merge_val`, and
/// always between the two.
pub fn merge_value(x: i64, y: i64, f: i64) -> (r: i64)
    requires
        -RANK_BOUND <= x <= RANK_BOUND,
        -RANK_BOUND <= y <= RANK_BOUND,
        0 <= f <= SCALE,
    ensures
        r == merge_val(x as int, y as int, f as int),
        x <= y ==> x <= r <= y,
        y <= x ==> y <= r <= x,
{
    let ghost s: int = SCALE as int;
    let ghost lo: int = if x <= y {
        x as int
    } else {
        y as int
    };
    let ghost hi: int = if x <= y {
        y as int
    } else {
        x as int
    };
    proof {
        assert(lo * s <= (x as int) * (f as int) + (y as int) * (s - f) <= hi * s)
            by (nonlinear_arith)
            requires
                lo <= x <= hi,
                lo <= y <= hi,
                0 <= f <= s,
                s == 1_000_000_000,
        ;
        assert(-52_000_000_000_000_000_000_000 <= (x as int) * (f as int)
            <= 52_000_000_000_000_000_000_000 && -52_000_000_000_000_000_000_000 <= (y as int) * (s
            - f) <= 52_000_000_000_000_000_000_000) by (nonlinear_arith)
            requires
                -RANK_BOUND <= x <= RANK_BOUND,
                -RANK_BOUND <= y <= RANK_BOUND,
                0 <= f <= s,
                s == 1_000_000_000,
                RANK_BOUND == 52_000_000_000_000i64,
        ;
    }
    let n: i128 = (x as i128) * (f as i128) + (y as i128) * ((SCALE - f) as i128);
    let r = div_scale(n);
    proof {
        lemma_div_is_ordered(lo * s, n as int, s);
        lemma_div_is_ordered(n as int, hi * s, s);
        lemma_mul_is_commutative(lo, s);
        lemma_mul_is_commutative(hi, s);
        lemma_div_multiples_vanish(lo, s);
        lemma_div_multiples_vanish(hi, s);
    }
    r
}

pub open spec fn merge_row(a: Seq<int>, b: Seq<int>, f: int) -> Seq<int> {
    seq![
        merge_val(a[0], b[0], f),
        merge_val(a[1], b[1], f),
        merge_val(a[2], b[2], f),
    ]
}

pub open spec fn merge_table(a: Seq<Seq<int>>, b: Seq<Seq<int>>, f: int) -> Seq<Seq<int>> {
    seq![
        merge_row(a[0], b[0], f),
        merge_row(a[1], b[1], f),
        merge_row(a[2], b[2], f),
        merge_row(a[3], b[3], f),
        merge_row(a[4], b[4], f),
        merge_row(a[5], b[5], f),
    ]
}

fn merge_rows(a: &AverageRank, b: &AverageRank, f: i64) -> (r: AverageRank)
    requires
        -RANK_BOUND <= a.rank1 <= RANK_BOUND,
        -RANK_BOUND <= a.rank2 <= RANK_BOUND,
        -RANK_BOUND <= a.rank3 <= RANK_BOUND,
        -RANK_BOUND <= b.rank1 <= RANK_BOUND,
        -RANK_BOUND <= b.rank2 <= RANK_BOUND,
        -RANK_BOUND <= b.rank3 <= RANK_BOUND,
        0 <= f <= SCALE,
    ensures
        r@ == merge_row(a@, b@, f as int),
        -RANK_BOUND <= r.rank1 <= RANK_BOUND,
        -RANK_BOUND <= r.rank2 <= RANK_BOUND,
        -RANK_BOUND <= r.rank3 <= RANK_BOUND,
{
    let r = AverageRank {
        rank1: merge_value(a.rank1, b.rank1, f),
        rank2: merge_value(a.rank2, b.rank2, f),
        rank3: merge_value(a.rank3, b.rank3, f),
    };
    proof {
        assert(r@ =~= merge_row(a@, b@, f as int));
    }
    r
}

/// A new table whose every entry is the weighted combination of the two
/// given tables: `factor1` parts of the first and `SCALE - factor1` parts
/// of the second.
pub fn merge(rankings1: &GiftRanks, rankings2: &GiftRanks, factor1: i64) -> (r: GiftRanks)
    requires
        table_bounded(rankings1@, RANK_BOUND as int),
        table_bounded(rankings2@, RANK_BOUND as int),
        0 <= factor1 <= SCALE,
    ensures
        r@ == merge_table(rankings1@, rankings2@, factor1 as int),
        table_bounded(r@, RANK_BOUND as int),
{
    let r = GiftRanks {
        power: merge_rows(&rankings1.power, &rankings2.power, factor1),
        bonus: merge_rows(&rankings1.bonus, &rankings2.bonus, factor1),
        quick: merge_rows(&rankings1.quick, &rankings2.quick, factor1),
        blessing: merge_rows(&rankings1.blessing, &rankings2.blessing, factor1),
        burden: merge_rows(&rankings1.burden, &rankings2.burden, factor1),
        bounty: merge_rows(&rankings1.bounty, &rankings2.bounty, factor1),
    };
    proof {
        assert(r@ =~= merge_table(rankings1@, rankings2@, factor1 as int));
    }
    r
}

} // verus!

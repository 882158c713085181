use vstd::prelude::*;
use crate::activity::Activity;
use crate::tips::HIGH_ACTIVITY_MIN_CENTI;

verus! {

// Units: body weight in grams, the activity multiplier in hundredths, energy
// in millionths of a kilocalorie, masses in micrograms and water in
// microlitres. In these units every formula below is exact on integers.

/// Extra water for high activity: 500 ml, in microlitres.
pub const EXTRA_WATER_UL: u128 = 500_000;

/// Daily energy need: 22 kcal per kg, times the activity multiplier.
pub open spec fn calories_of(weight_g: int, activity_centi: int) -> int {
    weight_g * 220 * activity_centi
}

/// Protein: 1.6 g per kg.
pub open spec fn protein_of(weight_g: int) -> int {
    weight_g * 1600
}

/// Fat: 0.8 g per kg.
pub open spec fn fat_of(weight_g: int) -> int {
    weight_g * 800
}

/// Energy already covered by protein (4 kcal/g) and fat (9 kcal/g).
pub open spec fn used_calories_of(weight_g: int) -> int {
    protein_of(weight_g) * 4 + fat_of(weight_g) * 9
}

/// Carbohydrate: the energy left after protein and fat, never below zero,
/// at 4 kcal/g.
pub open spec fn carbs_of(weight_g: int, activity_centi: int) -> int {
    let left = calories_of(weight_g, activity_centi) - used_calories_of(weight_g);
    (if left > 0 { left } else { 0 }) / 4
}

/// Water: 30 ml per kg, plus 500 ml from an activity of 1.6 on.
pub open spec fn water_of(weight_g: int, activity_centi: int) -> int {
    weight_g * 30 + if activity_centi >= HIGH_ACTIVITY_MIN_CENTI {
        EXTRA_WATER_UL as int
    } else {
        0
    }
}

/// `n / d` rounded to the nearest whole number, halves upwards.
pub open spec fn rounded_div(n: int, d: int) -> int {
    (n + d / 2) / d
}

/// The daily estimate, exact, in the units described at the top of this module.
#[derive(Clone, Copy, Debug, PartialEq, Eq, Structural)]
pub struct Estimate {
    /// Energy, in millionths of a kilocalorie.
    pub calories_ukcal: u128,
    /// Protein, in micrograms.
    pub protein_ug: u128,
    /// Carbohydrate, in micrograms.
    pub carbs_ug: u128,
    /// Fat, in micrograms.
    pub fat_ug: u128,
    /// Water, in microlitres.
    pub water_ul: u128,
}

/// The estimate as shown: whole kilocalories and grams, water in tenths of a litre.
#[derive(Clone, Copy, Debug, PartialEq, Eq, Structural)]
pub struct Summary {
    /// Energy, in kilocalories.
    pub calories_kcal: u128,
    /// Protein, in grams.
    pub protein_g: u128,
    /// Carbohydrate, in grams.
    pub carbs_g: u128,
    /// Fat, in grams.
    pub fat_g: u128,
    /// Water, in tenths of a litre.
    pub water_dl: u128,
}

/// Whether `e` holds the formulas' values for this weight and activity.
pub open spec fn is_estimate_of(e: Estimate, weight_g: int, activity_centi: int) -> bool {
    &&& e.calories_ukcal == calories_of(weight_g, activity_centi)
    &&& e.protein_ug == protein_of(weight_g)
    &&& e.fat_ug == fat_of(weight_g)
    &&& e.carbs_ug == carbs_of(weight_g, activity_centi)
    &&& e.water_ul == water_of(weight_g, activity_centi)
}

/// Computes the daily estimate for a body weight in grams and an activity level.
pub fn estimate(weight_g: u64, activity: Activity) -> (r: Estimate)
    ensures
        is_estimate_of(r, weight_g as int, activity.centi_spec() as int),
{
    let w = weight_g as u128;
    let a = activity.centi() as u128;
    assert(w * 220 * a <= 0xffff_ffff_ffff_ffff * 220 * 180) by (nonlinear_arith)
        requires
            w <= 0xffff_ffff_ffff_ffff,
            a <= 180,
    ;
    let calories = w * 220 * a;
    let protein = w * 1600;
    let fat = w * 800;
    let used = protein * 4 + fat * 9;
    let carbs = if calories > used {
        (calories - used) / 4
    } else {
        0
    };
    let water = w * 30 + if a >= HIGH_ACTIVITY_MIN_CENTI as u128 {
        EXTRA_WATER_UL
    } else {
        0
    };
    Estimate { calories_ukcal: calories, protein_ug: protein, carbs_ug: carbs, fat_ug: fat, water_ul: water }
}

/// Rounds `n / d` to the nearest whole number, halves upwards.
fn round_div(n: u128, d: u128) -> (r: u128)
    requires
        0 < d <= 1_000_000,
    ensures
        r == rounded_div(n as int, d as int),
{
    let q = n / d;
    let rem = n % d;
    let h = d / 2;
    proof {
        assert(n as int == q * d + rem && 0 <= rem < d) by (nonlinear_arith)
            requires
                q == n as int / d as int,
                rem == n as int % d as int,
                d > 0,
        ;
        assert((n + h) / (d as int) == q + (rem + h) / (d as int)) by (nonlinear_arith)
            requires
                n as int == q * d + rem,
                d > 0,
                h >= 0,
        ;
        assert(q * d <= n) by (nonlinear_arith)
            requires
                n as int == q * d + rem,
                rem >= 0,
        ;
        if rem >= d - h {
            assert((rem + h) / (d as int) == 1) by (nonlinear_arith)
                requires
                    d <= rem + h < 2 * d,
            ;
        } else {
            assert((rem + h) / (d as int) == 0) by (nonlinear_arith)
                requires
                    0 <= rem + h < d,
            ;
        }
        if d >= 2 {
            assert(q < 0xffff_ffff_ffff_ffff_ffff_ffff_ffff_ffff) by (nonlinear_arith)
                requires
                    q * d <= n,
                    d >= 2,
                    n <= 0xffff_ffff_ffff_ffff_ffff_ffff_ffff_ffff,
                    q >= 0,
            ;
        }
    }
    if rem >= d - h {
        q + 1
    } else {
        q
    }
}

impl Estimate {
    /// The values as displayed: energy and masses rounded to whole kilocalories
    /// and grams, water rounded to tenths of a litre.
    pub fn rounded(&self) -> (r: Summary)
        ensures
            r.calories_kcal == rounded_div(self.calories_ukcal as int, 1_000_000),
            r.protein_g == rounded_div(self.protein_ug as int, 1_000_000),
            r.carbs_g == rounded_div(self.carbs_ug as int, 1_000_000),
            r.fat_g == rounded_div(self.fat_ug as int, 1_000_000),
            r.water_dl == rounded_div(self.water_ul as int, 100_000),
    {
        Summary {
            calories_kcal: round_div(self.calories_ukcal, 1_000_000),
            protein_g: round_div(self.protein_ug, 1_000_000),
            carbs_g: round_div(self.carbs_ug, 1_000_000),
            fat_g: round_div(self.fat_ug, 1_000_000),
            water_dl: round_div(self.water_ul, 100_000),
        }
    }
}

/// Carbohydrate is never negative: the energy left for it is clamped at zero.
pub proof fn lemma_carbs_never_negative(weight_g: u64, activity: Activity)
    ensures
        carbs_of(weight_g as int, activity.centi_spec() as int) >= 0,
{
}

/// For a fixed activity, a larger weight gives strictly more energy, protein,
/// fat and water.
pub proof fn lemma_weight_monotonic(lighter_g: u64, heavier_g: u64, activity: Activity)
    requires
        lighter_g < heavier_g,
    ensures
        calories_of(lighter_g as int, activity.centi_spec() as int) < calories_of(
            heavier_g as int,
            activity.centi_spec() as int,
        ),
        protein_of(lighter_g as int) < protein_of(heavier_g as int),
        fat_of(lighter_g as int) < fat_of(heavier_g as int),
        water_of(lighter_g as int, activity.centi_spec() as int) < water_of(
            heavier_g as int,
            activity.centi_spec() as int,
        ),
{
    let a = activity.centi_spec() as int;
    assert(lighter_g * 220 * a < heavier_g * 220 * a) by (nonlinear_arith)
        requires
            lighter_g < heavier_g,
            a > 0,
    ;
}

/// With the weight fixed, going from an activity below 1.6 to one at or above
/// it raises the water by exactly 500 ml.
pub proof fn lemma_water_step(weight_g: u64, below: Activity, above: Activity)
    requires
        below.centi_spec() < HIGH_ACTIVITY_MIN_CENTI,
        above.centi_spec() >= HIGH_ACTIVITY_MIN_CENTI,
    ensures
        water_of(weight_g as int, above.centi_spec() as int) == water_of(
            weight_g as int,
            below.centi_spec() as int,
        ) + EXTRA_WATER_UL,
{
}

} // verus!

use vstd::prelude::*;

verus! {

/// Activity level at or below which the low-activity tips are given (hundredths).
pub const LOW_ACTIVITY_MAX_CENTI: u64 = 125;

/// Activity level from which the carbohydrate-timing tip is given (hundredths).
pub const CARBS_TIMING_MIN_CENTI: u64 = 140;

/// Activity level from which the fluids tip is given (hundredths).
pub const HIGH_ACTIVITY_MIN_CENTI: u64 = 160;

/// One piece of advice shown under the estimate.
#[derive(Clone, Copy, Debug, PartialEq, Eq, Structural)]
pub enum Tip {
    RegularMealTimes,
    SpreadProtein,
    CarbsNearActivity,
    IncreaseFluids,
    HealthyFats,
    LimitFriedFood,
}

impl Tip {
    /// The wording of the tip as shown to the user.
    pub open spec fn text_spec(self) -> Seq<char> {
        match self {
            Tip::RegularMealTimes => "🍽️ Mantén horarios de comida regulares."@,
            Tip::SpreadProtein => "🥩 Reparte la proteína a lo largo del día."@,
            Tip::CarbsNearActivity => "🍚 Incluye carbohidratos cerca de tu actividad."@,
            Tip::IncreaseFluids => "💧 Aumenta líquidos si sudas o te ejercitas."@,
            Tip::HealthyFats => "🥑 Prioriza grasas saludables como aceite de oliva."@,
            Tip::LimitFriedFood => "🚫 Limita frituras y grasas saturadas."@,
        }
    }

    /// The wording of the tip as shown to the user.
    pub fn text(&self) -> (r: &'static str)
        ensures
            r@ == self.text_spec(),
    {
        match self {
            Tip::RegularMealTimes => "🍽️ Mantén horarios de comida regulares.",
            Tip::SpreadProtein => "🥩 Reparte la proteína a lo largo del día.",
            Tip::CarbsNearActivity => "🍚 Incluye carbohidratos cerca de tu actividad.",
            Tip::IncreaseFluids => "💧 Aumenta líquidos si sudas o te ejercitas.",
            Tip::HealthyFats => "🥑 Prioriza grasas saludables como aceite de oliva.",
            Tip::LimitFriedFood => "🚫 Limita frituras y grasas saturadas.",
        }
    }
}

/// The tips for an activity multiplier given in hundredths, in the order shown.
pub open spec fn tips_for(activity_centi: int) -> Seq<Tip> {
    let low = if activity_centi <= LOW_ACTIVITY_MAX_CENTI {
        seq![Tip::RegularMealTimes, Tip::SpreadProtein]
    } else {
        Seq::empty()
    };
    let carbs = if activity_centi >= CARBS_TIMING_MIN_CENTI {
        seq![Tip::CarbsNearActivity]
    } else {
        Seq::empty()
    };
    let fluids = if activity_centi >= HIGH_ACTIVITY_MIN_CENTI {
        seq![Tip::IncreaseFluids]
    } else {
        Seq::empty()
    };
    low + carbs + fluids + seq![Tip::HealthyFats, Tip::LimitFriedFood]
}

/// Selects the advice for an activity multiplier given in hundredths
/// (`110` stands for 1.1). Each threshold is checked on its own and the
/// tips are appended in a fixed order; the two fat tips always close the list.
pub fn quick_tips(activity_centi: u64) -> (r: Vec<Tip>)
    ensures
        r@ == tips_for(activity_centi as int),
{
    let mut tips: Vec<Tip> = Vec::new();
    if activity_centi <= LOW_ACTIVITY_MAX_CENTI {
        tips.push(Tip::RegularMealTimes);
        tips.push(Tip::SpreadProtein);
    }
    if activity_centi >= CARBS_TIMING_MIN_CENTI {
        tips.push(Tip::CarbsNearActivity);
    }
    if activity_centi >= HIGH_ACTIVITY_MIN_CENTI {
        tips.push(Tip::IncreaseFluids);
    }
    tips.push(Tip::HealthyFats);
    tips.push(Tip::LimitFriedFood);
    assert(tips@ =~= tips_for(activity_centi as int));
    tips
}

} // verus!

use daily_nutrition::tips::{quick_tips, Tip};

#[test]
fn bedridden_gets_two_low_activity_tips_and_the_fat_tips() {
    assert_eq!(
        quick_tips(110),
        vec![Tip::RegularMealTimes, Tip::SpreadProtein, Tip::HealthyFats, Tip::LimitFriedFood]
    );
}

#[test]
fn very_intense_gets_carbs_and_fluids_but_no_low_activity_tips() {
    let tips = quick_tips(180);
    assert_eq!(
        tips,
        vec![Tip::CarbsNearActivity, Tip::IncreaseFluids, Tip::HealthyFats, Tip::LimitFriedFood]
    );
    assert!(!tips.contains(&Tip::RegularMealTimes));
    assert!(!tips.contains(&Tip::SpreadProtein));
}

#[test]
fn thresholds_are_inclusive() {
    assert_eq!(quick_tips(125).len(), 4);
    assert_eq!(quick_tips(126), vec![Tip::HealthyFats, Tip::LimitFriedFood]);
    assert_eq!(quick_tips(140), vec![Tip::CarbsNearActivity, Tip::HealthyFats, Tip::LimitFriedFood]);
    assert_eq!(quick_tips(159).len(), 3);
    assert_eq!(quick_tips(160).len(), 4);
}

#[test]
fn tips_for_zero_and_huge_activity() {
    assert_eq!(quick_tips(0).len(), 4);
    assert_eq!(quick_tips(u64::MAX).len(), 4);
    assert_eq!(quick_tips(u64::MAX)[0], Tip::CarbsNearActivity);
}

#[test]
fn tip_wording() {
    assert_eq!(Tip::RegularMealTimes.text(), "🍽️ Mantén horarios de comida regulares.");
    assert_eq!(Tip::SpreadProtein.text(), "🥩 Reparte la proteína a lo largo del día.");
    assert_eq!(Tip::CarbsNearActivity.text(), "🍚 Incluye carbohidratos cerca de tu actividad.");
    assert_eq!(Tip::IncreaseFluids.text(), "💧 Aumenta líquidos si sudas o te ejercitas.");
    assert_eq!(Tip::HealthyFats.text(), "🥑 Prioriza grasas saludables como aceite de oliva.");
    assert_eq!(Tip::LimitFriedFood.text(), "🚫 Limita frituras y grasas saturadas.");
}

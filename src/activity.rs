use vstd::prelude::*;

verus! {

/// The activity levels offered by the form, each standing for a fixed
/// multiplier of the basal energy need.
#[derive(Clone, Copy, Debug, PartialEq, Eq, Structural)]
pub enum Activity {
    /// Bedridden or no activity: 1.1.
    Bedridden,
    /// Very little activity: 1.25.
    VeryLittle,
    /// Light activity: 1.4.
    Light,
    /// Active: 1.6.
    Active,
    /// Very intense activity: 1.8.
    VeryIntense,
}

/// The level whose multiplier is `centi` hundredths, if there is one.
pub open spec fn activity_with_centi(centi: int) -> Option<Activity> {
    if centi == 110 {
        Some(Activity::Bedridden)
    } else if centi == 125 {
        Some(Activity::VeryLittle)
    } else if centi == 140 {
        Some(Activity::Light)
    } else if centi == 160 {
        Some(Activity::Active)
    } else if centi == 180 {
        Some(Activity::VeryIntense)
    } else {
        None
    }
}

impl Activity {
    /// The multiplier in hundredths (`110` stands for 1.1).
    pub open spec fn centi_spec(self) -> u64 {
        match self {
            Activity::Bedridden => 110,
            Activity::VeryLittle => 125,
            Activity::Light => 140,
            Activity::Active => 160,
            Activity::VeryIntense => 180,
        }
    }

    /// The multiplier in hundredths (`110` stands for 1.1).
    pub fn centi(&self) -> (r: u64)
        ensures
            r == self.centi_spec(),
    {
        match self {
            Activity::Bedridden => 110,
            Activity::VeryLittle => 125,
            Activity::Light => 140,
            Activity::Active => 160,
            Activity::VeryIntense => 180,
        }
    }

    /// The level whose multiplier is `centi` hundredths, if there is one.
    pub fn from_centi(centi: u64) -> (r: Option<Activity>)
        ensures
            r == activity_with_centi(centi as int),
    {
        if centi == 110 {
            Some(Activity::Bedridden)
        } else if centi == 125 {
            Some(Activity::VeryLittle)
        } else if centi == 140 {
            Some(Activity::Light)
        } else if centi == 160 {
            Some(Activity::Active)
        } else if centi == 180 {
            Some(Activity::VeryIntense)
        } else {
            None
        }
    }
}

} // verus!

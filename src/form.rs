use vstd::prelude::*;
use crate::activity::{Activity, activity_with_centi};
use crate::decimal::{ParsedDecimal, parse_decimal, is_decimal, has_minus, scaled_value};
use crate::nutrition::{Estimate, estimate, is_estimate_of};
use crate::tips::{Tip, quick_tips, tips_for};

verus! {

/// The weight shown when the form opens: 70 kg, in grams.
pub const DEFAULT_WEIGHT_G: u64 = 70_000;

/// Fraction digits read from the weight field (kilograms to grams).
pub const WEIGHT_SCALE: u64 = 3;

/// Fraction digits read from the activity selector (hundredths).
pub const ACTIVITY_SCALE: u64 = 2;

/// The two inputs of the form: everything else is derived from them.
#[derive(Clone, Copy, Debug, PartialEq, Eq, Structural)]
pub struct Form {
    /// Body weight, in grams.
    pub weight_g: u64,
    pub activity: Activity,
}

/// The weight after the weight field is edited to `text`: a decimal number
/// of kilograms (exponent notation included) is taken (a negative one as zero); text that is not
/// such a number, or a weight too large to hold in grams, leaves `current`.
pub open spec fn weight_after_edit(current: u64, text: Seq<char>) -> u64 {
    if !is_decimal(text) {
        current
    } else if has_minus(text) {
        0
    } else if scaled_value(text, WEIGHT_SCALE as nat) <= u64::MAX {
        scaled_value(text, WEIGHT_SCALE as nat) as u64
    } else {
        current
    }
}

/// The activity after the selector reports `text`: the level whose multiplier
/// the text writes, or `current` where it writes none of them.
pub open spec fn activity_after_edit(current: Activity, text: Seq<char>) -> Activity {
    if is_decimal(text) && !has_minus(text) {
        match activity_with_centi(scaled_value(text, ACTIVITY_SCALE as nat)) {
            Some(a) => a,
            None => current,
        }
    } else {
        current
    }
}

impl Form {
    /// The form as it opens: 70 kg and the lowest activity level.
    pub fn new() -> (r: Form)
        ensures
            r.weight_g == DEFAULT_WEIGHT_G,
            r.activity == Activity::Bedridden,
    {
        Form { weight_g: DEFAULT_WEIGHT_G, activity: Activity::Bedridden }
    }

    /// Takes an edit of the weight field, in kilograms.
    pub fn edit_weight(&mut self, text: &str)
        ensures
            final(self).weight_g == weight_after_edit(old(self).weight_g, text@),
            final(self).activity == old(self).activity,
    {
        match parse_decimal(text, WEIGHT_SCALE) {
            ParsedDecimal::Value(v) => {
                self.weight_g = v;
            },
            ParsedDecimal::Negative => {
                self.weight_g = 0;
            },
            ParsedDecimal::Malformed => {},
            ParsedDecimal::TooLarge => {},
        }
    }

    /// Takes the value reported by the activity selector.
    pub fn select_activity(&mut self, text: &str)
        ensures
            final(self).activity == activity_after_edit(old(self).activity, text@),
            final(self).weight_g == old(self).weight_g,
    {
        match parse_decimal(text, ACTIVITY_SCALE) {
            ParsedDecimal::Value(v) => {
                match Activity::from_centi(v) {
                    Some(a) => {
                        self.activity = a;
                    },
                    None => {},
                }
            },
            ParsedDecimal::Negative => {},
            ParsedDecimal::Malformed => {},
            ParsedDecimal::TooLarge => {},
        }
    }

    /// The daily estimate for the current inputs.
    pub fn estimate(&self) -> (r: Estimate)
        ensures
            is_estimate_of(r, self.weight_g as int, self.activity.centi_spec() as int),
    {
        estimate(self.weight_g, self.activity)
    }

    /// The advice for the current activity level.
    pub fn tips(&self) -> (r: Vec<Tip>)
        ensures
            r@ == tips_for(self.activity.centi_spec() as int),
    {
        quick_tips(self.activity.centi())
    }
}

/// Text that is not a decimal number leaves the stored weight as it was.
pub proof fn lemma_malformed_weight_ignored(current: u64, text: Seq<char>)
    requires
        !is_decimal(text),
    ensures
        weight_after_edit(current, text) == current,
{
}

} // verus!

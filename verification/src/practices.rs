//! Editing a practice: whose practice is edited, which kinds of practice
//! have colour zones, the daily score rules, and the text shown in a
//! threshold's input.
use vstd::prelude::*;
use crate::colour_zones::BetterDirection;
use crate::model::{PracticeDataType, PracticeEntryValue, duration_text, time_text};
use crate::text::{decimal, decimal_string};

verus! {

/// Whose practice a form edits: the user's own, or one of a yatra.
#[derive(Clone, Debug, PartialEq)]
pub enum Mode {
    UserPractice,
    YatraPractice { yatra_id: String },
}

/// Whether practices of a kind can have colour zones: times, durations and
/// counts can.
pub open spec fn has_colour_zones(data_type: PracticeDataType) -> bool {
    data_type == PracticeDataType::Time || data_type == PracticeDataType::Duration
        || data_type == PracticeDataType::Int
}

/// Whether practices of a kind can have colour zones.
pub fn supports_colour_zones(data_type: PracticeDataType) -> (r: bool)
    ensures
        r == has_colour_zones(data_type),
{
    let kinds = [PracticeDataType::Time, PracticeDataType::Duration, PracticeDataType::Int];
    let mut i: usize = 0;
    while i < 3
        invariant
            i <= 3,
            kinds@ == seq![PracticeDataType::Time, PracticeDataType::Duration, PracticeDataType::Int],
            forall|j: int| 0 <= j < i ==> kinds@[j] != data_type,
        decreases 3 - i,
    {
        if kinds[i] == data_type {
            return true;
        }
        i += 1;
    }
    false
}

/// Extra points given when a value reaches a threshold.
#[derive(Clone, Debug, PartialEq)]
pub struct BonusRule {
    pub threshold: PracticeEntryValue,
    pub points: u32,
}

/// How a practice counts towards the daily score.
#[derive(Clone, Debug, PartialEq)]
pub struct DailyScoreConfig {
    pub better_direction: BetterDirection,
    pub mandatory_threshold: Option<PracticeEntryValue>,
    pub bonus_rules: Vec<BonusRule>,
}

impl DailyScoreConfig {
    /// Sets the threshold of the bonus from what was entered: a value moves
    /// the first rule's threshold (or adds a rule worth one point when there
    /// is none); no value removes every rule.
    pub fn set_bonus_threshold(&mut self, value: Option<PracticeEntryValue>)
        ensures
            final(self).better_direction == old(self).better_direction,
            final(self).mandatory_threshold == old(self).mandatory_threshold,
            final(self).bonus_rules@ == (match value {
                None => Seq::<BonusRule>::empty(),
                Some(v) => if old(self).bonus_rules@.len() == 0 {
                    seq![BonusRule { threshold: v, points: 1 }]
                } else {
                    old(self).bonus_rules@.update(0, BonusRule { threshold: v, ..old(self).bonus_rules@[0] })
                },
            }),
    {
        match value {
            Some(v) => {
                if self.bonus_rules.len() == 0 {
                    self.bonus_rules.push(BonusRule { threshold: v, points: 1 });
                } else {
                    let mut first = self.bonus_rules.remove(0);
                    first.threshold = v;
                    self.bonus_rules.insert(0, first);
                }
            },
            None => {
                self.bonus_rules.clear();
            },
        }
    }
}

/// The text shown in a threshold's input for a practice of kind
/// `data_type`: the count, the time or the duration the value holds, and
/// nothing when there is no value or it is of another kind.
pub open spec fn input_text(value: Option<PracticeEntryValue>, data_type: PracticeDataType) -> Seq<char> {
    match (value, data_type) {
        (Some(PracticeEntryValue::Int(x)), PracticeDataType::Int) => decimal(x as nat),
        (Some(PracticeEntryValue::Time { h, m }), PracticeDataType::Time) => time_text(h, m),
        (Some(PracticeEntryValue::Duration(x)), PracticeDataType::Duration) => duration_text(x as nat),
        _ => Seq::empty(),
    }
}

/// The text shown in a threshold's or a bound's input.
pub fn threshold_input_text(value: Option<&PracticeEntryValue>, data_type: PracticeDataType) -> (r: String)
    ensures
        r@ == input_text(match value {
            Some(v) => Some(*v),
            None => None,
        }, data_type),
{
    let text: Option<String> = match value {
        Some(v) => match data_type {
            PracticeDataType::Int => match v.as_int() {
                Some(x) => Some(decimal_string(x as u64)),
                None => None,
            },
            PracticeDataType::Time => v.as_time_str(),
            PracticeDataType::Duration => v.as_duration_str(),
            _ => None,
        },
        None => None,
    };
    match text {
        Some(t) => t,
        None => String::new(),
    }
}

} // verus!

use sadhana_frontend::colour_zones::BetterDirection;
use sadhana_frontend::model::{PracticeDataType, PracticeEntryValue};
use sadhana_frontend::practices::{
    supports_colour_zones, threshold_input_text, BonusRule, DailyScoreConfig, Mode,
};

#[test]
fn kinds_with_colour_zones() {
    assert!(supports_colour_zones(PracticeDataType::Time));
    assert!(supports_colour_zones(PracticeDataType::Duration));
    assert!(supports_colour_zones(PracticeDataType::Int));
    assert!(!supports_colour_zones(PracticeDataType::Bool));
    assert!(!supports_colour_zones(PracticeDataType::Text));
}

#[test]
fn bonus_threshold() {
    let mut c = DailyScoreConfig { better_direction: BetterDirection::Higher, mandatory_threshold: None, bonus_rules: vec![] };
    c.set_bonus_threshold(Some(PracticeEntryValue::Int(16)));
    assert_eq!(c.bonus_rules, vec![BonusRule { threshold: PracticeEntryValue::Int(16), points: 1 }]);
    c.bonus_rules[0].points = 3;
    c.bonus_rules.push(BonusRule { threshold: PracticeEntryValue::Int(32), points: 5 });
    c.set_bonus_threshold(Some(PracticeEntryValue::Int(20)));
    assert_eq!(
        c.bonus_rules,
        vec![
            BonusRule { threshold: PracticeEntryValue::Int(20), points: 3 },
            BonusRule { threshold: PracticeEntryValue::Int(32), points: 5 }
        ]
    );
    c.set_bonus_threshold(None);
    assert!(c.bonus_rules.is_empty());
    assert_eq!(c.better_direction, BetterDirection::Higher);
}

#[test]
fn threshold_texts() {
    assert_eq!(threshold_input_text(Some(&PracticeEntryValue::Int(16)), PracticeDataType::Int), "16");
    assert_eq!(threshold_input_text(Some(&PracticeEntryValue::Time { h: 5, m: 0 }), PracticeDataType::Time), "05:00");
    assert_eq!(threshold_input_text(Some(&PracticeEntryValue::Duration(95)), PracticeDataType::Duration), "1h35m");
    assert_eq!(threshold_input_text(Some(&PracticeEntryValue::Int(16)), PracticeDataType::Time), "");
    assert_eq!(threshold_input_text(None, PracticeDataType::Int), "");
}

#[test]
fn modes() {
    let m = Mode::YatraPractice { yatra_id: "y".into() };
    assert_ne!(m, Mode::UserPractice);
}

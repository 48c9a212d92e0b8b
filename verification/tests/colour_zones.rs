use sadhana_frontend::colour_zones::{
    colour_zones_for_count, is_bound_value_valid, just_above, midpoint, preview_values, preview_zone_count,
    zones_enabled, BetterDirection, Bound, ColourZonesConfig, ZoneColour,
};
use sadhana_frontend::model::PracticeEntryValue;
use sadhana_frontend::yatra::heatmap_zones;

fn count_value(x: u16) -> Option<PracticeEntryValue> {
    Some(PracticeEntryValue::Int(x))
}

#[test]
fn zones_by_count() {
    let three = colour_zones_for_count(3);
    assert_eq!(three.bounds, vec![Bound::default_red(), Bound::default_yellow()]);
    assert_eq!(three.better_direction, BetterDirection::Higher);
    assert_eq!(three.no_value_colour, ZoneColour::Neutral);
    assert_eq!(three.best_colour, None);
    assert_eq!(colour_zones_for_count(2).bounds, vec![Bound::default_red()]);
    assert!(colour_zones_for_count(0).bounds.is_empty());
    assert!(colour_zones_for_count(5).bounds.is_empty());
    assert_eq!(three.zone_count_choice(), 3);
    assert_eq!(colour_zones_for_count(2).zone_count_choice(), 2);
    assert_eq!(colour_zones_for_count(0).zone_count_choice(), 0);
}

#[test]
fn better_direction_recolours_the_first_bound() {
    let mut c = colour_zones_for_count(3);
    c.set_better_direction(BetterDirection::Lower);
    assert_eq!(c.better_direction, BetterDirection::Lower);
    assert_eq!(c.bounds[0].colour, ZoneColour::Green);
    assert_eq!(c.bounds[1].colour, ZoneColour::Yellow);
    c.set_better_direction(BetterDirection::Higher);
    assert_eq!(c.bounds[0].colour, ZoneColour::Red);
    let mut empty = ColourZonesConfig::default_config();
    empty.set_better_direction(BetterDirection::Lower);
    assert!(empty.bounds.is_empty());
}

#[test]
fn bound_values_must_increase() {
    let bounds = vec![Bound::new(count_value(10), ZoneColour::Red), Bound::new(count_value(20), ZoneColour::Yellow)];
    assert!(is_bound_value_valid(&bounds, ZoneColour::Yellow));
    assert!(is_bound_value_valid(&bounds, ZoneColour::Red));
    let bad = vec![Bound::new(count_value(20), ZoneColour::Red), Bound::new(count_value(20), ZoneColour::Yellow)];
    assert!(!is_bound_value_valid(&bad, ZoneColour::Yellow));
    let unset = vec![Bound::new(None, ZoneColour::Red), Bound::new(count_value(1), ZoneColour::Yellow)];
    assert!(is_bound_value_valid(&unset, ZoneColour::Yellow));
    assert!(is_bound_value_valid(&bounds, ZoneColour::Green));
}

#[test]
fn setting_a_bound_value() {
    let mut c = colour_zones_for_count(3);
    c.set_bound_value(ZoneColour::Yellow, count_value(7));
    assert_eq!(c.bounds[1].to, count_value(7));
    assert_eq!(c.bounds[0].to, None);
    let before = c.clone();
    c.set_bound_value(ZoneColour::Green, count_value(9));
    assert_eq!(c, before);
}

#[test]
fn saved_and_enabled_zones() {
    assert_eq!(ColourZonesConfig::default_config().into_saved(), None);
    let c = colour_zones_for_count(2);
    assert_eq!(c.clone().into_saved(), Some(c.clone()));
    assert!(zones_enabled(Some(&c)));
    assert!(!zones_enabled(Some(&ColourZonesConfig::default_config())));
    assert!(!zones_enabled(None));
}

#[test]
fn midpoints_and_steps() {
    assert_eq!(midpoint(&PracticeEntryValue::Int(10), &PracticeEntryValue::Int(15)), count_value(12));
    assert_eq!(
        midpoint(&PracticeEntryValue::Time { h: 5, m: 0 }, &PracticeEntryValue::Time { h: 6, m: 1 }),
        Some(PracticeEntryValue::Time { h: 5, m: 30 })
    );
    assert_eq!(midpoint(&PracticeEntryValue::Int(1), &PracticeEntryValue::Duration(3)), None);
    assert_eq!(just_above(&PracticeEntryValue::Time { h: 5, m: 59 }), Some(PracticeEntryValue::Time { h: 6, m: 0 }));
    assert_eq!(just_above(&PracticeEntryValue::Duration(9)), Some(PracticeEntryValue::Duration(10)));
    assert_eq!(just_above(&PracticeEntryValue::Bool(true)), None);
}

#[test]
fn preview_has_one_sample_per_zone() {
    let bounds = vec![Bound::new(count_value(10), ZoneColour::Red), Bound::new(count_value(20), ZoneColour::Yellow)];
    let values = preview_values(&bounds);
    assert_eq!(values, vec![PracticeEntryValue::Int(5), PracticeEntryValue::Int(15), PracticeEntryValue::Int(21)]);
    assert_eq!(preview_zone_count(&bounds), 3);
    let partial = vec![Bound::new(count_value(10), ZoneColour::Red), Bound::new(None, ZoneColour::Yellow)];
    assert_eq!(preview_zone_count(&partial), 2);
    assert!(preview_values(&[]).is_empty());
}

#[test]
fn stability_heatmap_zones() {
    let z = heatmap_zones();
    assert_eq!(z.bounds.len(), 4);
    assert_eq!(z.bounds[0], Bound::new(count_value(10), ZoneColour::MutedRed));
    assert_eq!(z.bounds[3], Bound::new(count_value(40), ZoneColour::Green));
    assert_eq!(z.best_colour, Some(ZoneColour::DarkGreen));
}

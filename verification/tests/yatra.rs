use sadhana_frontend::chart_report::UserPractice;
use sadhana_frontend::model::{PracticeDataType, PracticeEntryValue};
use sadhana_frontend::yatra::{
    aggregations_for_practice, heatmap_cells, heatmap_header_days, is_good_for_practice, new_yatra_name,
    remove_quotes, select_yatra, yatra_by_name, Aggregation, TimeRange, Yatra, YatraStatistic, YatraStatistics,
};

fn practice(id: &str, dt: PracticeDataType) -> UserPractice {
    UserPractice { id: id.into(), practice: format!("name {id}"), data_type: dt, is_active: true, is_required: None }
}

fn yatra(id: &str, name: &str) -> Yatra {
    Yatra { id: id.into(), name: name.into(), show_stability_metrics: false, statistics: None }
}

#[test]
fn aggregations_by_kind() {
    let ps = vec![
        practice("i", PracticeDataType::Int),
        practice("t", PracticeDataType::Time),
        practice("b", PracticeDataType::Bool),
        practice("d", PracticeDataType::Duration),
    ];
    let all = vec![Aggregation::Count, Aggregation::Sum, Aggregation::Avg, Aggregation::Min, Aggregation::Max];
    assert_eq!(aggregations_for_practice("i", Some(&ps)), all);
    assert_eq!(aggregations_for_practice("d", Some(&ps)), all);
    assert_eq!(
        aggregations_for_practice("t", Some(&ps)),
        vec![Aggregation::Count, Aggregation::Avg, Aggregation::Min, Aggregation::Max]
    );
    assert_eq!(aggregations_for_practice("b", Some(&ps)), vec![Aggregation::Count]);
    assert_eq!(aggregations_for_practice("zz", Some(&ps)), vec![Aggregation::Count]);
    assert_eq!(aggregations_for_practice("i", None), vec![Aggregation::Count]);
    assert!(!is_good_for_practice(&Aggregation::Sum, "t", Some(&ps)));
    assert!(is_good_for_practice(&Aggregation::Min, "t", Some(&ps)));
}

#[test]
fn editing_statistics() {
    let mut stats = YatraStatistics { visible_to_all: false, statistics: vec![] };
    stats.add_statistic();
    assert_eq!(stats.statistics.len(), 1);
    assert_eq!(stats.statistics[0].aggregation, Aggregation::Count);
    assert_eq!(stats.statistics[0].time_range, TimeRange::Last7Days);
    stats.set_label(0, "Rounds".into());
    stats.set_aggregation(0, Aggregation::Sum);
    stats.set_time_range(0, TimeRange::Last30Days);
    stats.set_practice(0, "p1".into());
    assert_eq!(
        stats.statistics[0],
        YatraStatistic {
            label: "Rounds".into(),
            practice_id: "p1".into(),
            aggregation: Aggregation::Count,
            time_range: TimeRange::Last30Days
        }
    );
    stats.set_visibility("Everyone");
    assert!(stats.visible_to_all);
    stats.set_visibility("Admins");
    assert!(!stats.visible_to_all);
    stats.set_label(7, "ignored".into());
    stats.delete_statistic(3);
    assert_eq!(stats.statistics.len(), 1);
    stats.delete_statistic(0);
    assert!(stats.statistics.is_empty());
    assert_eq!(stats.clone().into_saved(), None);
    stats.add_statistic();
    assert!(stats.into_saved().is_some());
}

#[test]
fn heatmap_rows_and_header() {
    assert_eq!(
        heatmap_cells(&[3, 0, -1, 7], true),
        vec![Some(PracticeEntryValue::Int(3)), None, None]
    );
    assert_eq!(heatmap_cells(&[3, 0, -1, 7], false), vec![None, None, Some(PracticeEntryValue::Int(7))]);
    let days: Vec<String> = vec!["Mo".into(), "Tu".into(), "We".into()];
    assert_eq!(heatmap_header_days(&days, true), vec!["Mo".to_string(), "Tu".to_string()]);
    assert_eq!(heatmap_header_days(&days, false), vec!["Tu".to_string(), "We".to_string()]);
    assert!(heatmap_header_days(&[], true).is_empty());
    assert!(heatmap_header_days(&[], false).is_empty());
}

#[test]
fn choosing_the_yatra_shown() {
    let ys = vec![yatra("a", "Alpha"), yatra("b", "Beta")];
    assert_eq!(select_yatra(&ys, Some("\"b\"")), Some(1));
    assert_eq!(select_yatra(&ys, Some("b")), Some(1));
    assert_eq!(select_yatra(&ys, Some("gone")), Some(0));
    assert_eq!(select_yatra(&ys, None), Some(0));
    assert_eq!(select_yatra(&[], Some("a")), None);
    assert_eq!(yatra_by_name(&ys, "Beta"), Some(1));
    assert_eq!(yatra_by_name(&ys, "b"), None);
    assert_eq!(remove_quotes("\"a\"b\""), "ab");
}

#[test]
fn naming_a_new_yatra() {
    assert_eq!(new_yatra_name(Some("  Morning group ")), Some("Morning group".to_string()));
    assert_eq!(new_yatra_name(Some("   ")), None);
    assert_eq!(new_yatra_name(None), None);
}

#[test]
fn heatmap_header_and_rows_line_up() {
    let days: Vec<String> = vec!["a".into(), "b".into(), "c".into(), "d".into()];
    let scores = [1, 2, 3, 4];
    for today in [true, false] {
        assert_eq!(heatmap_header_days(&days, today).len(), heatmap_cells(&scores, today).len());
    }
}

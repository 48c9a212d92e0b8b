use sadhana_frontend::chart_data::{average_value, overflow_time, y_value};
use sadhana_frontend::model::{CobDate, PracticeDataType, PracticeEntryValue, ReportDataEntry};

fn day(d: u32) -> CobDate {
    CobDate::new(2024, 2, d).unwrap()
}

fn entry(d: u32, value: Option<PracticeEntryValue>) -> ReportDataEntry {
    ReportDataEntry { cob_date: day(d), practice: "p".to_string(), value }
}

fn time(h: u8, m: u8) -> Option<PracticeEntryValue> {
    Some(PracticeEntryValue::Time { h, m })
}

#[test]
fn times_spilling_over_midnight() {
    assert!(overflow_time(&[entry(1, time(23, 0)), entry(2, time(1, 0))]));
    assert!(!overflow_time(&[entry(1, time(19, 0)), entry(2, time(7, 30))]));
    assert!(overflow_time(&[entry(1, time(22, 0)), entry(2, time(20, 0)), entry(3, time(6, 0))]));
    assert!(!overflow_time(&[entry(1, time(23, 0)), entry(2, time(12, 0))]));
    assert!(!overflow_time(&[entry(1, time(5, 0))]));
    assert!(!overflow_time(&[]));
}

#[test]
fn plotted_values() {
    let e = entry(1, time(7, 5));
    assert_eq!(y_value(&PracticeDataType::Time, &e, false), "2020-01-01 07:05:00");
    assert_eq!(y_value(&PracticeDataType::Time, &e, true), "2020-01-02 07:05:00");
    assert_eq!(y_value(&PracticeDataType::Time, &entry(1, time(13, 0)), true), "2020-01-01 13:00:00");
    assert_eq!(y_value(&PracticeDataType::Int, &entry(1, Some(PracticeEntryValue::Int(16))), false), "16");
    assert_eq!(y_value(&PracticeDataType::Duration, &entry(1, Some(PracticeEntryValue::Duration(75))), false), "75");
    assert_eq!(y_value(&PracticeDataType::Bool, &entry(1, Some(PracticeEntryValue::Bool(false))), false), "1");
    assert_eq!(y_value(&PracticeDataType::Int, &entry(1, None), false), "");
}

#[test]
fn averages_leave_out_today() {
    let data = vec![
        entry(1, Some(PracticeEntryValue::Int(10))),
        entry(2, Some(PracticeEntryValue::Int(5))),
        entry(3, Some(PracticeEntryValue::Int(100))),
    ];
    let avg = average_value(&PracticeDataType::Int, &data, false, &day(3)).unwrap();
    assert_eq!(avg.value, "7");
    assert_eq!(avg.label, "7");
    let avg_all = average_value(&PracticeDataType::Int, &data, false, &day(9)).unwrap();
    assert_eq!(avg_all.value, "38");
}

#[test]
fn averages_of_durations_and_times() {
    let durations = vec![entry(1, Some(PracticeEntryValue::Duration(60))), entry(2, None)];
    let avg = average_value(&PracticeDataType::Duration, &durations, false, &day(20)).unwrap();
    assert_eq!(avg.value, "30");
    assert_eq!(avg.label, "30m");
    let times = vec![entry(1, time(23, 0)), entry(2, time(1, 0)), entry(3, None)];
    let avg = average_value(&PracticeDataType::Time, &times, true, &day(20)).unwrap();
    assert_eq!(avg.value, "2020-01-02 00:00:00");
    assert_eq!(avg.label, "00:00");
    let plain = average_value(&PracticeDataType::Time, &[entry(1, time(6, 0)), entry(2, time(7, 0))], false, &day(20)).unwrap();
    assert_eq!(plain.value, "2020-01-01 06:30:00");
}

#[test]
fn no_average_without_values() {
    assert!(average_value(&PracticeDataType::Int, &[entry(1, None)], false, &day(20)).is_none());
    assert!(average_value(&PracticeDataType::Bool, &[entry(1, Some(PracticeEntryValue::Bool(true)))], false, &day(20)).is_none());
    assert!(average_value(&PracticeDataType::Int, &[entry(1, Some(PracticeEntryValue::Int(3)))], false, &day(1)).is_none());
}

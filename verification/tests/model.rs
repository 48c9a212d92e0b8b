use sadhana_frontend::model::{duration_string, time_string, PracticeEntryValue};

#[test]
fn texts_of_values() {
    assert_eq!(PracticeEntryValue::Int(42).to_text(), "42");
    assert_eq!(PracticeEntryValue::Bool(true).to_text(), "true");
    assert_eq!(PracticeEntryValue::Bool(false).to_text(), "false");
    assert_eq!(PracticeEntryValue::Time { h: 7, m: 5 }.to_text(), "07:05");
    assert_eq!(PracticeEntryValue::Text("hare".to_string()).to_text(), "hare");
    assert_eq!(PracticeEntryValue::Duration(90).to_text(), "1h30m");
    assert_eq!(PracticeEntryValue::Duration(45).to_text(), "45m");
    assert_eq!(PracticeEntryValue::Duration(120).to_text(), "2h0m");
}

#[test]
fn time_and_duration_strings() {
    assert_eq!(time_string(0, 0), "00:00");
    assert_eq!(time_string(23, 59), "23:59");
    assert_eq!(duration_string(0), "0m");
    assert_eq!(duration_string(65535), "1092h15m");
}

#[test]
fn accessors() {
    assert_eq!(PracticeEntryValue::Int(3).as_int(), Some(3));
    assert_eq!(PracticeEntryValue::Duration(3).as_int(), None);
    assert_eq!(PracticeEntryValue::Duration(3).as_duration_mins(), Some(3));
    assert_eq!(PracticeEntryValue::Time { h: 4, m: 30 }.as_time_str(), Some("04:30".to_string()));
    assert_eq!(PracticeEntryValue::Int(1).as_time_str(), None);
    assert_eq!(PracticeEntryValue::Duration(61).as_duration_str(), Some("1h1m".to_string()));
}

#[test]
fn order_of_values() {
    assert!(PracticeEntryValue::Int(5).gt(&PracticeEntryValue::Int(4)));
    assert!(!PracticeEntryValue::Int(4).gt(&PracticeEntryValue::Int(4)));
    assert!(PracticeEntryValue::Time { h: 5, m: 1 }.gt(&PracticeEntryValue::Time { h: 5, m: 0 }));
    assert!(PracticeEntryValue::Time { h: 6, m: 0 }.gt(&PracticeEntryValue::Time { h: 5, m: 59 }));
    assert!(PracticeEntryValue::Bool(true).gt(&PracticeEntryValue::Bool(false)));
    assert!(PracticeEntryValue::Text("b".into()).gt(&PracticeEntryValue::Text("ab".into())));
    assert!(PracticeEntryValue::Text("ab".into()).gt(&PracticeEntryValue::Text("a".into())));
    assert!(PracticeEntryValue::Duration(0).gt(&PracticeEntryValue::Int(100)));
}

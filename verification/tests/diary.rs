use sadhana_frontend::chart_report::UserPractice;
use sadhana_frontend::diary::{
    add_duration, date_is_incomplete, dropdown_options, entry_marked_incomplete, import_column_issues,
    required_practices, value_changed, DiaryEntry, ImportColumn, ImportIssue,
};
use sadhana_frontend::model::{CobDate, PracticeDataType, PracticeEntryValue};

fn practice(id: &str, name: &str, dt: PracticeDataType, required: Option<bool>) -> UserPractice {
    UserPractice { id: id.into(), practice: name.into(), data_type: dt, is_active: true, is_required: required }
}

fn diary_entry(name: &str, value: Option<PracticeEntryValue>) -> DiaryEntry {
    DiaryEntry { practice: name.into(), data_type: PracticeDataType::Int, dropdown_variants: None, value }
}

fn date(d: u32) -> CobDate {
    CobDate::new(2024, 2, d).unwrap()
}

#[test]
fn required_practice_names() {
    let ps = vec![
        practice("1", "Japa", PracticeDataType::Int, Some(true)),
        practice("2", "Reading", PracticeDataType::Duration, Some(false)),
        practice("3", "Wake up", PracticeDataType::Time, None),
        practice("4", "Notes", PracticeDataType::Text, Some(true)),
    ];
    assert_eq!(required_practices(&ps), vec!["Japa".to_string(), "Notes".to_string()]);
}

#[test]
fn incomplete_days() {
    let req = vec!["Japa".to_string()];
    let missing = vec![diary_entry("Japa", None), diary_entry("Other", Some(PracticeEntryValue::Int(1)))];
    let filled = vec![diary_entry("Japa", Some(PracticeEntryValue::Int(16))), diary_entry("Other", None)];
    assert_eq!(date_is_incomplete(&date(1), &date(2), Some(&req), &missing), Some(true));
    assert_eq!(date_is_incomplete(&date(1), &date(2), Some(&req), &filled), Some(false));
    assert_eq!(date_is_incomplete(&date(2), &date(2), Some(&req), &missing), None);
    assert_eq!(date_is_incomplete(&date(1), &date(2), None, &missing), None);
    assert!(entry_marked_incomplete(&missing[0], false, &date(1), &date(2), Some(&req)));
    assert!(!entry_marked_incomplete(&missing[0], true, &date(1), &date(2), Some(&req)));
    assert!(!entry_marked_incomplete(&filled[1], false, &date(1), &date(2), Some(&req)));
    assert!(!entry_marked_incomplete(&missing[0], false, &date(3), &date(2), Some(&req)));
}

#[test]
fn adding_minutes() {
    assert_eq!(add_duration(&Some(PracticeEntryValue::Duration(30)), 15), Some(PracticeEntryValue::Duration(45)));
    assert_eq!(add_duration(&Some(PracticeEntryValue::Duration(30)), 0), None);
    assert_eq!(add_duration(&Some(PracticeEntryValue::Int(30)), 5), None);
    assert_eq!(add_duration(&None, 5), None);
}

#[test]
fn changed_values() {
    assert!(!value_changed(&None, &None));
    assert!(value_changed(&None, &Some(PracticeEntryValue::Int(0))));
    assert!(!value_changed(&Some(PracticeEntryValue::Text("a".into())), &Some(PracticeEntryValue::Text("a".into()))));
    assert!(value_changed(&Some(PracticeEntryValue::Int(1)), &Some(PracticeEntryValue::Duration(1))));
    assert!(value_changed(&Some(PracticeEntryValue::Time { h: 1, m: 2 }), &None));
}

#[test]
fn import_column_problems() {
    let ps = vec![
        practice("1", "Japa", PracticeDataType::Int, None),
        practice("2", "Japa", PracticeDataType::Duration, None),
        practice("3", "Wake up", PracticeDataType::Time, None),
    ];
    let columns = vec![
        ImportColumn { header: "Date".into(), data_type: None },
        ImportColumn { header: "Japa".into(), data_type: Some(PracticeDataType::Int) },
        ImportColumn { header: "Wake up".into(), data_type: Some(PracticeDataType::Time) },
        ImportColumn { header: "Unknown".into(), data_type: Some(PracticeDataType::Bool) },
    ];
    assert_eq!(
        import_column_issues(&columns, &ps),
        vec![
            ImportIssue::WrongType {
                practice: "Japa".into(),
                saved: PracticeDataType::Duration,
                selected: PracticeDataType::Int
            },
            ImportIssue::NoSuchPractice { practice: "Unknown".into() },
        ]
    );
    assert!(import_column_issues(&columns[..3][2..], &ps).is_empty());
}

#[test]
fn dropdown_choices_and_selection() {
    let v = PracticeEntryValue::Text("Kirtan".into());
    let opts = dropdown_options(" Japa, Kirtan ,,Reading ,", Some(&v));
    let texts: Vec<&str> = opts.choices.iter().map(|c| c.text.as_str()).collect();
    assert_eq!(texts, vec!["Japa", "Kirtan", "Reading"]);
    let selected: Vec<bool> = opts.choices.iter().map(|c| c.selected).collect();
    assert_eq!(selected, vec![false, true, false]);
    assert!(!opts.blank_selected);
    let none = dropdown_options("a,b", None);
    assert!(none.blank_selected);
    assert!(none.choices.iter().all(|c| !c.selected));
    let other = dropdown_options("a,b", Some(&PracticeEntryValue::Text("c".into())));
    assert!(other.blank_selected);
    assert!(dropdown_options("", None).choices.is_empty());
    assert!(dropdown_options(" , ,", None).choices.is_empty());
}

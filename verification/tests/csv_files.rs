use sadhana_frontend::csv_export::to_csv_str;
use sadhana_frontend::csv_import::{
    day_of_record, import_days, import_headers, import_records, import_row, ImportRowError, RecordFailure,
};
use sadhana_frontend::diary::ImportColumn;
use sadhana_frontend::model::{CobDate, PracticeDataType, PracticeEntryValue, ReportData, ReportDataEntry};

fn entry(d: u32, practice: &str, value: Option<PracticeEntryValue>) -> ReportDataEntry {
    ReportDataEntry { cob_date: CobDate::new(2024, 2, d).unwrap(), practice: practice.to_string(), value }
}

#[test]
fn export_writes_days_as_rows() {
    let data = ReportData {
        values: vec![
            entry(1, "Japa", Some(PracticeEntryValue::Int(16))),
            entry(1, "Notes", Some(PracticeEntryValue::Text("a, b".into()))),
            entry(2, "Japa", None),
            entry(2, "Notes", Some(PracticeEntryValue::Text("say \"hi\"".into()))),
            entry(3, "Japa", Some(PracticeEntryValue::Int(1))),
            entry(3, "Notes", None),
        ],
    };
    let csv = to_csv_str(&data, "Date").unwrap();
    assert_eq!(csv, "Date,Japa,Notes\n2024-02-01,16,\"a, b\"\n2024-02-02,,\"say \"\"hi\"\"\"\n");
}

#[test]
fn export_of_a_single_day_is_empty() {
    let data = ReportData { values: vec![entry(1, "Japa", Some(PracticeEntryValue::Int(16)))] };
    assert_eq!(to_csv_str(&data, "Date").unwrap(), "");
    assert_eq!(to_csv_str(&ReportData { values: vec![] }, "Date").unwrap(), "");
}

#[test]
fn export_fails_on_uneven_days() {
    let data = ReportData {
        values: vec![
            entry(1, "Japa", Some(PracticeEntryValue::Int(16))),
            entry(2, "Japa", Some(PracticeEntryValue::Int(1))),
            entry(2, "Notes", None),
            entry(3, "Japa", None),
        ],
    };
    assert_eq!(to_csv_str(&data, "Date"), None);
}

#[test]
fn reading_an_import_file() {
    let data = "Date,Japa,Notes\n2024-02-01,16,\"a, b\"\n2024-02-02,,x\n";
    assert_eq!(import_headers(data), vec!["Date".to_string(), "Japa".to_string(), "Notes".to_string()]);
    let records = import_records(data);
    assert_eq!(records.len(), 2);
    assert_eq!(
        records[0],
        Some(vec!["2024-02-01".to_string(), "16".to_string(), "a, b".to_string()])
    );
    assert_eq!(records[1], Some(vec!["2024-02-02".to_string(), "".to_string(), "x".to_string()]));
}

#[test]
fn uneven_import_records_are_errors() {
    let records = import_records("a,b\n1,2,3\n4,5\n");
    assert_eq!(records.len(), 2);
    assert_eq!(records[0], None);
    assert_eq!(records[1], Some(vec!["4".to_string(), "5".to_string()]));
    assert!(import_headers("").is_empty());
}

#[test]
fn a_record_as_a_day() {
    let columns = vec![
        ImportColumn { header: "Date".into(), data_type: None },
        ImportColumn { header: "Japa".into(), data_type: Some(PracticeDataType::Int) },
        ImportColumn { header: "Skip".into(), data_type: None },
        ImportColumn { header: "Notes".into(), data_type: Some(PracticeDataType::Text) },
    ];
    let fields: Vec<String> = vec!["2024-02-01".into(), "16".into(), "zzz".into(), "  ".into()];
    let row = import_row(&columns, &fields).unwrap();
    assert_eq!(row.cob, CobDate::new(2024, 2, 1).unwrap());
    assert_eq!(row.cells.len(), 2);
    assert_eq!(row.cells[0].practice, "Japa");
    assert_eq!(row.cells[0].data_type, PracticeDataType::Int);
    assert_eq!(row.cells[0].text, Some("16".to_string()));
    assert_eq!(row.cells[1].practice, "Notes");
    assert_eq!(row.cells[1].text, None);
    let short: Vec<String> = vec!["2024-02-02".into(), "3".into()];
    assert_eq!(import_row(&columns, &short).unwrap().cells.len(), 1);
    assert!(matches!(import_row(&columns, &vec![]), Err(ImportRowError::NoFields)));
}

#[test]
fn a_record_with_a_bad_date_is_refused() {
    let columns = vec![
        ImportColumn { header: "Date".into(), data_type: None },
        ImportColumn { header: "Japa".into(), data_type: Some(PracticeDataType::Int) },
    ];
    for bad in ["01/02/2024", "2024-02-30", "2024-13-01", "yesterday", ""] {
        let fields: Vec<String> = vec![bad.into(), "16".into()];
        assert!(matches!(import_row(&columns, &fields), Err(ImportRowError::BadDate)), "{}", bad);
    }
    let fields: Vec<String> = vec!["2024-02-29".into(), "16".into()];
    assert_eq!(import_row(&columns, &fields).unwrap().cob, CobDate::new(2024, 2, 29).unwrap());
    assert!(matches!(import_row(&[], &fields), Err(ImportRowError::NoFields)));
}

#[test]
fn a_record_as_a_day_given_its_date() {
    let columns = vec![
        ImportColumn { header: "Date".into(), data_type: None },
        ImportColumn { header: "Japa".into(), data_type: Some(PracticeDataType::Int) },
    ];
    let fields: Vec<String> = vec!["whatever".into(), "16".into()];
    let d = CobDate::new(2023, 12, 31).unwrap();
    let row = day_of_record(&columns, &fields, Some(d)).unwrap();
    assert_eq!(row.cob, d);
    assert_eq!(row.cells[0].text, Some("16".to_string()));
    assert!(matches!(day_of_record(&columns, &fields, None), Err(ImportRowError::BadDate)));
    assert!(matches!(day_of_record(&columns, &vec![], Some(d)), Err(ImportRowError::NoFields)));
}

#[test]
fn records_of_a_file_as_days() {
    let columns = vec![
        ImportColumn { header: "Date".into(), data_type: None },
        ImportColumn { header: "Japa".into(), data_type: Some(PracticeDataType::Int) },
    ];
    let data = "Date,Japa\n2024-02-01,16\n1,2,3\nnot a date,4\n2024-02-03,\n";
    let records = import_records(data);
    let (days, failures) = import_days(&columns, &records);
    assert_eq!(days.len(), 2);
    assert_eq!(days[0].cob, CobDate::new(2024, 2, 1).unwrap());
    assert_eq!(days[0].cells[0].text, Some("16".to_string()));
    assert_eq!(days[1].cob, CobDate::new(2024, 2, 3).unwrap());
    assert_eq!(days[1].cells[0].text, None);
    assert_eq!(failures, vec![(1, RecordFailure::Unreadable), (2, RecordFailure::Row(ImportRowError::BadDate))]);
    let (days, failures) = import_days(&columns, &vec![]);
    assert!(days.is_empty() && failures.is_empty());
}

use sadhana_frontend::model::CobDate;

fn date(y: i32, m: u32, d: u32) -> CobDate {
    CobDate::new(y, m, d).unwrap()
}

#[test]
fn only_existing_dates_are_made() {
    assert!(CobDate::new(2024, 2, 29).is_some());
    assert!(CobDate::new(2023, 2, 29).is_none());
    assert!(CobDate::new(1900, 2, 29).is_none());
    assert!(CobDate::new(2000, 2, 29).is_some());
    assert!(CobDate::new(2024, 13, 1).is_none());
    assert!(CobDate::new(2024, 4, 31).is_none());
    assert!(CobDate::new(2024, 1, 0).is_none());
}

#[test]
fn range_of_years() {
    assert!(CobDate::new(262142, 12, 31).is_some());
    assert!(CobDate::new(262143, 1, 1).is_none());
    assert!(CobDate::new(-262143, 1, 1).is_some());
    assert!(CobDate::new(-262144, 12, 31).is_none());
}

#[test]
fn iso_text() {
    assert_eq!(date(2024, 2, 5).to_iso_string(), "2024-02-05");
    assert_eq!(date(987, 12, 31).to_iso_string(), "0987-12-31");
    assert_eq!(date(10000, 1, 1).to_iso_string(), "+10000-01-01");
    assert_eq!(date(-5, 3, 9).to_iso_string(), "-0005-03-09");
}

#[test]
fn short_labels() {
    assert_eq!(date(2024, 2, 5).to_short_label(), "Mon, 05 Feb");
    assert_eq!(date(2023, 12, 31).to_short_label(), "Sun, 31 Dec");
    assert_eq!(date(2000, 1, 1).to_short_label(), "Sat, 01 Jan");
    assert_eq!(date(2000, 2, 29).to_short_label(), "Tue, 29 Feb");
    assert_eq!(date(1, 1, 1).to_short_label(), "Mon, 01 Jan");
    assert_eq!(date(0, 1, 1).to_short_label(), "Sat, 01 Jan");
    assert_eq!(date(-1, 12, 31).to_short_label(), "Fri, 31 Dec");
}

#[test]
fn ordering_of_days() {
    let a = date(2024, 2, 5);
    let b = date(2024, 3, 1);
    assert!(a.before(&b));
    assert!(!b.before(&a));
    assert!(!a.before(&a));
    assert!(a.same_day(&date(2024, 2, 5)));
}

#[test]
fn today_is_a_real_day() {
    let t = CobDate::today();
    assert!(CobDate::new(t.year, t.month, t.day).is_some());
}

use sadhana_frontend::model::CobDate;
use sadhana_frontend::services::{
    api_path, delete_yatra_practice, get_diary_day, get_incomplete_days, get_report_data, get_shared_report_data,
    get_yatra_data, get_yatra_practice, login, update_yatra_practice, ReportDuration,
};

fn date(y: i32, m: u32, d: u32) -> CobDate {
    CobDate::new(y, m, d).unwrap()
}

#[test]
fn plain_paths() {
    assert_eq!(api_path("/users/login"), "/api/users/login");
    assert_eq!(login(), "/users/login");
    assert_eq!(get_yatra_practice("y1", "p2"), "/yatra/y1/practice/p2");
    assert_eq!(delete_yatra_practice("y1", "p2"), "/yatra/y1/practice/p2");
    assert_eq!(update_yatra_practice("y1", "p2"), "/yatra/y1/practice/p2");
}

#[test]
fn dated_paths() {
    assert_eq!(get_diary_day(&date(2024, 2, 5)), "/diary/2024-02-05");
    assert_eq!(
        get_report_data(&date(2024, 2, 5), &ReportDuration::Last30Days),
        "/diary/2024-02-05/report?duration=Last30Days"
    );
    assert_eq!(
        get_shared_report_data("u7", &date(2023, 12, 31), &ReportDuration::Last365Days),
        "/share/u7?end_date=2023-12-31&duration=Last365Days"
    );
    assert_eq!(get_yatra_data("y", &date(2024, 1, 1)), "/yatra/y/data?cob_date=2024-01-01");
    assert_eq!(
        get_incomplete_days(&date(2024, 1, 1), &date(2024, 1, 31)),
        "/diary/incomplete-days?from=2024-01-01&to=2024-01-31"
    );
}

#[test]
fn duration_names() {
    assert_eq!(ReportDuration::Last7Days.as_str(), "Last7Days");
    assert_eq!(ReportDuration::Last90Days.as_str(), "Last90Days");
}

use sadhana_frontend::chart_report::UserPractice;
use sadhana_frontend::charts::{BarGraphLayout, GraphReport, GridReport, ReportDefinition};
use sadhana_frontend::forms::{
    account_changes, active_practices, data_type_from_name, dropdown_variants_input, initial_practice_name, new_practice_request,
    new_report_form, report_type_from_choice, share_description, share_url, AccountChanges, NewPracticeRequest,
    NewPracticeTarget, ReportType,
};
use sadhana_frontend::model::PracticeDataType;

fn practice(id: &str, active: bool) -> UserPractice {
    UserPractice { id: id.into(), practice: id.into(), data_type: PracticeDataType::Int, is_active: active, is_required: None }
}

#[test]
fn initial_names_are_decoded() {
    assert_eq!(initial_practice_name(Some("Morning%20Japa")), "Morning Japa");
    assert_eq!(initial_practice_name(Some("plain+name")), "plain+name");
    assert_eq!(initial_practice_name(Some("%D0%AF")), "Я");
    assert_eq!(initial_practice_name(Some("%FF")), "");
    assert_eq!(initial_practice_name(Some("100%")), "100%");
    assert_eq!(initial_practice_name(None), "");
}

#[test]
fn kinds_named_by_the_form() {
    assert_eq!(data_type_from_name("int"), Some(PracticeDataType::Int));
    assert_eq!(data_type_from_name("time"), Some(PracticeDataType::Time));
    assert_eq!(data_type_from_name("bool"), Some(PracticeDataType::Bool));
    assert_eq!(data_type_from_name("text"), Some(PracticeDataType::Text));
    assert_eq!(data_type_from_name("duration"), Some(PracticeDataType::Duration));
    assert_eq!(data_type_from_name(""), None);
    assert_eq!(data_type_from_name("Int"), None);
}

#[test]
fn new_practice_requests() {
    match new_practice_request(&NewPracticeTarget::UserPractice, "  Japa ", PracticeDataType::Int, Some(true)) {
        NewPracticeRequest::User(p) => {
            assert_eq!(p.practice, "Japa");
            assert_eq!(p.data_type, PracticeDataType::Int);
            assert!(p.is_active);
            assert_eq!(p.is_required, Some(true));
        }
        NewPracticeRequest::Yatra { .. } => panic!("expected a user practice"),
    }
    let target = NewPracticeTarget::YatraPractice { yatra_id: "y1".into() };
    match new_practice_request(&target, " Rounds ", PracticeDataType::Duration, None) {
        NewPracticeRequest::Yatra { yatra_id, practice } => {
            assert_eq!(yatra_id, "y1");
            assert_eq!(practice.practice, " Rounds ");
            assert_eq!(practice.data_type, PracticeDataType::Duration);
        }
        NewPracticeRequest::User(_) => panic!("expected a yatra practice"),
    }
}

#[test]
fn new_reports() {
    assert_eq!(report_type_from_choice("graph"), ReportType::Graph);
    assert_eq!(report_type_from_choice("grid"), ReportType::Grid);
    let g = new_report_form(ReportType::Graph, "G");
    assert_eq!(g.name, "G");
    assert_eq!(g.definition, ReportDefinition::Graph(GraphReport::new(BarGraphLayout::Grouped, vec![])));
    let t = new_report_form(ReportType::Grid, "T");
    assert_eq!(t.definition, ReportDefinition::Grid(GridReport::new(vec![])));
}

#[test]
fn account_changes_to_send() {
    assert_eq!(account_changes("Ann", "Ann", ""), AccountChanges { update_name: false, update_password: false });
    assert_eq!(account_changes("Ann", "Anna", ""), AccountChanges { update_name: true, update_password: false });
    assert_eq!(account_changes("Ann", "", "secret"), AccountChanges { update_name: false, update_password: true });
}

#[test]
fn shares() {
    assert_eq!(share_description(Some(" for Ann ")), Some(" for Ann ".to_string()));
    assert_eq!(share_description(Some(" \t")), None);
    assert_eq!(share_description(None), None);
    assert_eq!(share_url("https://example.org", "abc"), "https://example.org/shared/abc");
}

#[test]
fn active_and_hidden_practices() {
    let ps = vec![practice("a", true), practice("b", false), practice("c", true)];
    let ids: Vec<String> = active_practices(ps.clone()).into_iter().map(|p| p.id).collect();
    assert_eq!(ids, vec!["a".to_string(), "c".to_string()]);
    let toggled = ps[1].clone().with_active_toggled();
    assert!(toggled.is_active);
    assert_eq!(toggled.id, "b");
    assert!(active_practices(vec![]).is_empty());
}

#[test]
fn dropdown_variants_typed() {
    assert_eq!(dropdown_variants_input(" a, b "), Some("a, b".to_string()));
    assert_eq!(dropdown_variants_input("  "), None);
}

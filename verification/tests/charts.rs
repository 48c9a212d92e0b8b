use sadhana_frontend::charts::{
    active_report_index, find_report, BarGraphLayout, CreateReportForm, GraphReport, GraphType, GridReport,
    PracticeTrace, Report, ReportDefinition, ReportForm, SelectedReportId, UpdateReportForm, YAxis,
    SELECTED_REPORT_ID_KEY,
};
use sadhana_frontend::services::{create_new_report, update_report};

fn report(id: &str, name: &str) -> Report {
    Report {
        id: id.to_string(),
        name: name.to_string(),
        definition: ReportDefinition::Grid(GridReport::new(vec!["p1".to_string()])),
    }
}

#[test]
fn default_graph_is_an_empty_grouped_graph() {
    let form = ReportForm::default_graph("Weekly");
    assert_eq!(form.name, "Weekly");
    assert_eq!(
        form.definition,
        ReportDefinition::Graph(GraphReport { bar_layout: BarGraphLayout::Grouped, traces: vec![] })
    );
}

#[test]
fn default_grid_is_an_empty_grid() {
    let form = ReportForm::default_grid("Table");
    assert_eq!(form.name, "Table");
    assert_eq!(form.definition, ReportDefinition::Grid(GridReport { practices: vec![] }));
}

#[test]
fn grid_keeps_each_practice_once() {
    let grid = GridReport::new(vec!["a".to_string(), "b".to_string(), "a".to_string(), "c".to_string(), "b".to_string()]);
    assert_eq!(grid.practices, vec!["a".to_string(), "b".to_string(), "c".to_string()]);
}

#[test]
fn graph_report_holds_its_parts() {
    let traces = vec![PracticeTrace::default()];
    let g = GraphReport::new(BarGraphLayout::Stacked, traces.clone());
    assert_eq!(g.bar_layout, BarGraphLayout::Stacked);
    assert_eq!(g.traces, traces);
}

#[test]
fn default_trace() {
    let t = PracticeTrace::default();
    assert_eq!(t.label, None);
    assert_eq!(t.type_, GraphType::Bar);
    assert_eq!(t.practice, None);
    assert_eq!(t.y_axis, None);
    assert!(!t.show_average);
    let c = PracticeTrace { y_axis: Some(YAxis::Y3), ..t }.copy();
    assert_eq!(c.y_axis, Some(YAxis::Y3));
}

#[test]
fn form_of_a_report() {
    let r = report("r1", "Mine");
    let form = ReportForm::from_report(&r);
    assert_eq!(form.name, "Mine");
    assert_eq!(form.definition, r.definition);
}

#[test]
fn selected_report() {
    assert_eq!(SelectedReportId::new("abc").report_id, "abc");
    assert_eq!(SELECTED_REPORT_ID_KEY, "SelectedReportId");
    let reports = vec![report("r1", "One"), report("r2", "Two"), report("r2", "Again")];
    assert_eq!(find_report(&reports, "r2"), Some(1));
    assert_eq!(find_report(&reports, "r9"), None);
    assert_eq!(active_report_index(&reports, Some(&SelectedReportId::new("r2"))), Some(1));
    assert_eq!(active_report_index(&reports, Some(&SelectedReportId::new("gone"))), None);
    assert_eq!(active_report_index(&reports, None), Some(0));
    assert_eq!(active_report_index(&[], None), None);
}

#[test]
fn report_requests() {
    let form = ReportForm::default_graph("G");
    let (path, body) = create_new_report(form.clone());
    assert_eq!(path, "/reports");
    assert_eq!(body, CreateReportForm { report: form.clone() });
    let (path, body) = update_report("42", form.clone());
    assert_eq!(path, "/report/42");
    assert_eq!(body, UpdateReportForm { report: form });
}

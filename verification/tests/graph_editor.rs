use sadhana_frontend::chart_report::UserPractice;
use sadhana_frontend::charts::{BarGraphLayout, GraphReport, GraphType, LineConf, LineStyle, PracticeTrace, YAxis};
use sadhana_frontend::graph_editor::{
    axes_eq, axes_for_trace, find_type_by_id, graph_type_for_choice, is_shared_axis, practices_for_trace,
};
use sadhana_frontend::model::PracticeDataType;

fn practice(id: &str, dt: PracticeDataType) -> UserPractice {
    UserPractice { id: id.into(), practice: id.to_uppercase(), data_type: dt, is_active: true, is_required: None }
}

fn trace(practice: Option<&str>, axis: Option<YAxis>) -> PracticeTrace {
    PracticeTrace { practice: practice.map(|p| p.to_string()), y_axis: axis, ..PracticeTrace::default() }
}

fn practices() -> Vec<UserPractice> {
    vec![
        practice("japa", PracticeDataType::Int),
        practice("rise", PracticeDataType::Time),
        practice("read", PracticeDataType::Duration),
        practice("mala", PracticeDataType::Int),
    ]
}

#[test]
fn missing_axis_is_the_first() {
    assert!(axes_eq(None, Some(YAxis::Y)));
    assert!(axes_eq(None, None));
    assert!(!axes_eq(None, Some(YAxis::Y2)));
    assert!(axes_eq(Some(YAxis::Y4), Some(YAxis::Y4)));
}

#[test]
fn shared_axes() {
    let traces = vec![trace(Some("japa"), None), trace(Some("rise"), Some(YAxis::Y2))];
    assert!(!is_shared_axis(&traces, 0, None));
    assert!(is_shared_axis(&traces, 1, Some(YAxis::Y)));
    assert!(!is_shared_axis(&traces, 1, Some(YAxis::Y2)));
}

#[test]
fn axes_offered_to_a_trace() {
    let ps = practices();
    let traces = vec![trace(Some("japa"), Some(YAxis::Y)), trace(Some("rise"), Some(YAxis::Y2))];
    let mala = "mala".to_string();
    let all = vec![YAxis::Y, YAxis::Y2, YAxis::Y3, YAxis::Y4, YAxis::Y5, YAxis::Y6, YAxis::Y7, YAxis::Y8];
    let mut without_y2 = all.clone();
    without_y2.remove(1);
    assert_eq!(axes_for_trace(&traces, &ps, Some(&mala)), without_y2);
    assert_eq!(axes_for_trace(&traces, &ps, None), all);
    let unknown = "nope".to_string();
    assert_eq!(axes_for_trace(&traces, &ps, Some(&unknown)), all);
}

#[test]
fn practices_offered_to_a_trace() {
    let ps = practices();
    let traces = vec![trace(Some("japa"), None), trace(None, Some(YAxis::Y)), trace(Some("read"), Some(YAxis::Y3))];
    assert_eq!(practices_for_trace(&traces, &ps, 1, Some(YAxis::Y), None), vec![0, 3]);
    assert_eq!(practices_for_trace(&traces, &ps, 2, Some(YAxis::Y3), traces[2].practice.as_ref()), vec![0, 1, 2, 3]);
    let rise = "rise".to_string();
    assert_eq!(practices_for_trace(&traces, &ps, 0, None, Some(&rise)), vec![1]);
}

#[test]
fn kinds_by_id() {
    let mut ps = practices();
    ps.push(practice("japa", PracticeDataType::Bool));
    assert_eq!(find_type_by_id(&ps, "japa"), Some(PracticeDataType::Bool));
    assert_eq!(find_type_by_id(&ps, "rise"), Some(PracticeDataType::Time));
    assert_eq!(find_type_by_id(&ps, "x"), None);
}

#[test]
fn editing_traces() {
    let mut g = GraphReport::new(BarGraphLayout::Grouped, vec![]);
    g.add_trace();
    g.add_trace();
    g.set_trace_practice(0, "japa".into());
    g.set_trace_axis(0, YAxis::Y2);
    g.set_trace_type(0, "line");
    g.set_trace_label(0, "  Rounds ");
    g.set_trace_show_average(0, true);
    g.set_bar_layout(BarGraphLayout::Stacked);
    assert_eq!(
        g.traces[0],
        PracticeTrace {
            label: Some("Rounds".into()),
            type_: GraphType::Line(LineConf { style: LineStyle::Regular }),
            practice: Some("japa".into()),
            y_axis: Some(YAxis::Y2),
            show_average: true,
        }
    );
    assert_eq!(g.bar_layout, BarGraphLayout::Stacked);
    g.set_trace_label(0, "   ");
    assert_eq!(g.traces[0].label, None);
    g.delete_trace(0);
    assert_eq!(g.traces, vec![PracticeTrace::default()]);
    assert_eq!(graph_type_for_choice("bar"), GraphType::Bar);
    assert_eq!(graph_type_for_choice("dot"), GraphType::Dot);
}

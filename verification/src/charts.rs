//! Report definitions: graphs made of traces of practices, and grids of
//! practices.
use vstd::prelude::*;
use crate::text::str_equal;

verus! {

/// How the bars of several traces share the x axis.
#[derive(Clone, Copy, Debug, PartialEq, Eq, Structural)]
pub enum BarGraphLayout {
    Grouped,
    Overlaid,
    Stacked,
}

/// The style of a line.
#[derive(Clone, Copy, Debug, PartialEq, Eq, Structural)]
pub enum LineStyle {
    Regular,
}

/// How a line is drawn.
#[derive(Clone, Copy, Debug, PartialEq, Eq, Structural)]
pub struct LineConf {
    pub style: LineStyle,
}

impl LineConf {
    pub fn new(style: LineStyle) -> (r: LineConf)
        ensures
            r.style == style,
    {
        LineConf { style }
    }
}

/// How a trace is drawn.
#[derive(Clone, Copy, Debug, PartialEq, Eq, Structural)]
pub enum GraphType {
    Bar,
    Line(LineConf),
    Dot,
}

/// One of the y axes a trace can be plotted against, left and right in turn.
#[derive(Clone, Copy, Debug, PartialEq, Eq, Structural)]
pub enum YAxis {
    Y,
    Y2,
    Y3,
    Y4,
    Y5,
    Y6,
    Y7,
    Y8,
}

/// One practice plotted in a graph.
#[derive(Clone, Debug, PartialEq)]
pub struct PracticeTrace {
    pub label: Option<String>,
    pub type_: GraphType,
    pub practice: Option<String>,
    pub y_axis: Option<YAxis>,
    pub show_average: bool,
}

impl Default for PracticeTrace {
    /// An unlabelled bar trace with no practice, on the default axis and
    /// without an average.
    fn default() -> (r: Self)
        ensures
            r.label is None,
            r.type_ == GraphType::Bar,
            r.practice is None,
            r.y_axis is None,
            !r.show_average,
    {
        PracticeTrace { label: None, type_: GraphType::Bar, practice: None, y_axis: None, show_average: false }
    }
}

/// Whether two optional texts hold the same text.
pub open spec fn same_text(a: Option<String>, b: Option<String>) -> bool {
    match (a, b) {
        (None, None) => true,
        (Some(x), Some(y)) => x@ == y@,
        _ => false,
    }
}

/// Whether two traces are the same trace.
pub open spec fn same_trace(a: PracticeTrace, b: PracticeTrace) -> bool {
    &&& same_text(a.label, b.label)
    &&& a.type_ == b.type_
    &&& same_text(a.practice, b.practice)
    &&& a.y_axis == b.y_axis
    &&& a.show_average == b.show_average
}

fn copy_text(a: &Option<String>) -> (r: Option<String>)
    ensures
        same_text(r, *a),
{
    match a {
        Some(s) => Some(s.clone()),
        None => None,
    }
}

impl PracticeTrace {
    /// A copy of the trace.
    pub fn copy(&self) -> (r: PracticeTrace)
        ensures
            same_trace(r, *self),
    {
        PracticeTrace {
            label: copy_text(&self.label),
            type_: self.type_,
            practice: copy_text(&self.practice),
            y_axis: self.y_axis,
            show_average: self.show_average,
        }
    }
}

/// A graph of traces.
#[derive(Clone, Debug, PartialEq)]
pub struct GraphReport {
    pub bar_layout: BarGraphLayout,
    pub traces: Vec<PracticeTrace>,
}

impl GraphReport {
    pub fn new(bar_layout: BarGraphLayout, traces: Vec<PracticeTrace>) -> (r: GraphReport)
        ensures
            r.bar_layout == bar_layout,
            r.traces == traces,
    {
        GraphReport { bar_layout, traces }
    }
}

/// A grid of practices (by id), each at most once; their order carries no
/// meaning.
#[derive(Clone, Debug, PartialEq)]
pub struct GridReport {
    pub practices: Vec<String>,
}

/// The texts of a vector of strings.
pub open spec fn texts(v: Seq<String>) -> Seq<Seq<char>> {
    v.map_values(|s: String| s@)
}

impl GridReport {
    /// The grid of the given practices, each kept once.
    pub fn new(practices: Vec<String>) -> (r: GridReport)
        ensures
            texts(r.practices@).no_duplicates(),
            forall|t: Seq<char>| texts(r.practices@).contains(t) <==> texts(practices@).contains(t),
    {
        let mut kept: Vec<String> = Vec::new();
        let mut i: usize = 0;
        while i < practices.len()
            invariant
                i <= practices@.len(),
                texts(kept@).no_duplicates(),
                forall|t: Seq<char>| texts(kept@).contains(t) <==> texts(practices@.take(i as int)).contains(t),
            decreases practices@.len() - i,
        {
            let p = &practices[i];
            let mut seen = false;
            let mut j: usize = 0;
            while j < kept.len()
                invariant
                    j <= kept@.len(),
                    seen <==> exists|k: int| 0 <= k < j && kept@[k]@ == p@,
                decreases kept@.len() - j,
            {
                if kept[j] == *p {
                    seen = true;
                }
                j += 1;
            }
            let ghost before = kept@;
            if !seen {
                kept.push(p.clone());
                proof {
                    assert(texts(kept@) =~= texts(before).push(p@));
                    assert forall|a: int, b: int| 0 <= a < b < texts(kept@).len() implies texts(kept@)[a]
                        != texts(kept@)[b] by {
                        if b == before.len() {
                            assert(texts(kept@)[a] == before[a]@);
                        }
                    }
                }
            }
            proof {
                let prev = texts(practices@.take(i as int));
                assert(texts(practices@.take(i + 1)) =~= prev.push(p@));
                lemma_push_contains(prev, p@);
                if seen {
                    let k = choose|k: int| 0 <= k < before.len() && before[k]@ == p@;
                    assert(texts(before)[k] == p@);
                    assert(texts(before).contains(p@));
                    assert(texts(kept@) == texts(before));
                } else {
                    assert(texts(kept@) =~= texts(before).push(p@));
                    lemma_push_contains(texts(before), p@);
                }
                assert forall|t: Seq<char>| texts(kept@).contains(t) <==> texts(practices@.take(i + 1)).contains(t) by {
                    assert(texts(before).contains(t) <==> prev.contains(t));
                }
            }
            i += 1;
        }
        assert(practices@.take(practices@.len() as int) =~= practices@);
        GridReport { practices: kept }
    }
}

proof fn lemma_push_contains(s: Seq<Seq<char>>, x: Seq<char>)
    ensures
        forall|t: Seq<char>| s.push(x).contains(t) <==> (s.contains(t) || t == x),
{
    assert forall|t: Seq<char>| s.push(x).contains(t) <==> (s.contains(t) || t == x) by {
        if s.push(x).contains(t) {
            let j = choose|j: int| 0 <= j < s.push(x).len() && #[trigger] s.push(x)[j] == t;
            if j < s.len() {
                assert(s[j] == t);
            }
        }
        if s.contains(t) {
            let j = choose|j: int| 0 <= j < s.len() && #[trigger] s[j] == t;
            assert(s.push(x)[j] == t);
        }
        if t == x {
            assert(s.push(x)[s.len() as int] == t);
        }
    }
}

/// What a report shows.
#[derive(Clone, Debug, PartialEq)]
pub enum ReportDefinition {
    Grid(GridReport),
    Graph(GraphReport),
}

/// Whether two vectors of texts hold the same texts.
pub open spec fn same_texts(a: Seq<String>, b: Seq<String>) -> bool {
    texts(a) == texts(b)
}

/// Whether two definitions are the same definition.
pub open spec fn same_definition(a: ReportDefinition, b: ReportDefinition) -> bool {
    match (a, b) {
        (ReportDefinition::Grid(x), ReportDefinition::Grid(y)) => same_texts(x.practices@, y.practices@),
        (ReportDefinition::Graph(x), ReportDefinition::Graph(y)) => {
            &&& x.bar_layout == y.bar_layout
            &&& x.traces@.len() == y.traces@.len()
            &&& forall|i: int| 0 <= i < x.traces@.len() ==> same_trace(#[trigger] x.traces@[i], y.traces@[i])
        },
        _ => false,
    }
}

fn copy_texts(v: &Vec<String>) -> (r: Vec<String>)
    ensures
        same_texts(r@, v@),
{
    let mut out: Vec<String> = Vec::new();
    let mut i: usize = 0;
    while i < v.len()
        invariant
            i <= v@.len(),
            texts(out@) == texts(v@.take(i as int)),
        decreases v@.len() - i,
    {
        let c = v[i].clone();
        let ghost before = out@;
        out.push(c);
        proof {
            assert(texts(out@) =~= texts(before).push(v@[i as int]@));
            assert(texts(v@.take(i + 1)) =~= texts(v@.take(i as int)).push(v@[i as int]@));
        }
        i += 1;
    }
    assert(v@.take(v@.len() as int) =~= v@);
    out
}

impl ReportDefinition {
    /// A copy of the definition.
    pub fn copy(&self) -> (r: ReportDefinition)
        ensures
            same_definition(r, *self),
    {
        match self {
            ReportDefinition::Grid(g) => ReportDefinition::Grid(GridReport { practices: copy_texts(&g.practices) }),
            ReportDefinition::Graph(g) => {
                let mut traces: Vec<PracticeTrace> = Vec::new();
                let mut i: usize = 0;
                while i < g.traces.len()
                    invariant
                        i <= g.traces@.len(),
                        traces@.len() == i,
                        forall|k: int| 0 <= k < i ==> same_trace(#[trigger] traces@[k], g.traces@[k]),
                    decreases g.traces@.len() - i,
                {
                    traces.push(g.traces[i].copy());
                    i += 1;
                }
                ReportDefinition::Graph(GraphReport { bar_layout: g.bar_layout, traces })
            },
        }
    }
}

/// A saved report.
#[derive(Clone, Debug, PartialEq)]
pub struct Report {
    pub id: String,
    pub name: String,
    pub definition: ReportDefinition,
}

/// A report as it is created or updated: its name and definition.
#[derive(Clone, Debug, PartialEq)]
pub struct ReportForm {
    pub name: String,
    pub definition: ReportDefinition,
}

impl ReportForm {
    /// A new grouped-bar graph with no traces.
    pub fn default_graph(name: &str) -> (r: ReportForm)
        ensures
            r.name@ == name@,
            r.definition matches ReportDefinition::Graph(g) && g.bar_layout == BarGraphLayout::Grouped
                && g.traces@.len() == 0,
    {
        ReportForm {
            definition: ReportDefinition::Graph(GraphReport::new(BarGraphLayout::Grouped, Vec::new())),
            name: name.to_owned(),
        }
    }

    /// A new grid with no practices.
    pub fn default_grid(name: &str) -> (r: ReportForm)
        ensures
            r.name@ == name@,
            r.definition matches ReportDefinition::Grid(g) && g.practices@.len() == 0,
    {
        let empty: Vec<String> = Vec::new();
        assert(texts(empty@).len() == 0);
        let grid = GridReport::new(empty);
        proof {
            if grid.practices@.len() > 0 {
                let x = grid.practices@[0]@;
                assert(texts(grid.practices@)[0] == x);
                assert(texts(grid.practices@).contains(x));
                assert(texts(empty@).contains(x));
                assert(false);
            }
        }
        ReportForm { definition: ReportDefinition::Grid(grid), name: name.to_owned() }
    }

    /// The form of a saved report: its name and definition.
    pub fn from_report(value: &Report) -> (r: ReportForm)
        ensures
            r.name@ == value.name@,
            same_definition(r.definition, value.definition),
    {
        ReportForm { name: value.name.clone(), definition: value.definition.copy() }
    }
}

/// The reports the server lists.
#[derive(Clone, Debug, PartialEq)]
pub struct ReportsResponse {
    pub reports: Vec<Report>,
}

/// The server's answer to a new report: its id.
#[derive(Clone, Debug, PartialEq)]
pub struct CreateReportResponse {
    pub report_id: String,
}

/// The body of a request that creates a report.
#[derive(Clone, Debug, PartialEq)]
pub struct CreateReportForm {
    pub report: ReportForm,
}

/// The body of a request that updates a report.
#[derive(Clone, Debug, PartialEq)]
pub struct UpdateReportForm {
    pub report: ReportForm,
}

/// The key under which the selected report is remembered.
pub const SELECTED_REPORT_ID_KEY: &'static str = "SelectedReportId";

/// The report that was last selected.
#[derive(Clone, Debug, PartialEq)]
pub struct SelectedReportId {
    pub report_id: String,
}

impl SelectedReportId {
    pub fn new(report_id: &str) -> (r: SelectedReportId)
        ensures
            r.report_id@ == report_id@,
    {
        SelectedReportId { report_id: report_id.to_owned() }
    }
}

/// The index of the first report with the given id.
pub open spec fn report_index(reports: Seq<Report>, id: Seq<char>) -> Option<int>
    decreases reports.len(),
{
    if reports.len() == 0 {
        None
    } else {
        match report_index(reports.drop_last(), id) {
            Some(i) => Some(i),
            None => if reports.last().id@ == id { Some(reports.len() - 1) } else { None },
        }
    }
}

proof fn lemma_report_index_prefix(reports: Seq<Report>, id: Seq<char>, i: int)
    requires
        0 <= i < reports.len(),
        report_index(reports.take(i), id) is None,
    ensures
        report_index(reports.take(i + 1), id) == (if reports[i].id@ == id { Some(i) } else { None::<int> }),
{
    assert(reports.take(i + 1).drop_last() =~= reports.take(i));
}

/// Finds the report with the given id.
pub fn find_report(reports: &[Report], id: &str) -> (r: Option<usize>)
    ensures
        match report_index(reports@, id@) {
            None => r is None,
            Some(i) => r == Some(i as usize),
        },
{
    let mut i: usize = 0;
    while i < reports.len()
        invariant
            i <= reports@.len(),
            report_index(reports@.take(i as int), id@) is None,
        decreases reports@.len() - i,
    {
        proof { lemma_report_index_prefix(reports@, id@, i as int); }
        if str_equal(reports[i].id.as_str(), id) {
            proof {
                lemma_report_index_stable(reports@, id@, i + 1);
                assert(reports@.take(reports@.len() as int) =~= reports@);
            }
            return Some(i);
        }
        i += 1;
    }
    assert(reports@.take(reports@.len() as int) =~= reports@);
    None
}

proof fn lemma_report_index_stable(reports: Seq<Report>, id: Seq<char>, n: int)
    requires
        0 <= n <= reports.len(),
        report_index(reports.take(n), id) is Some,
    ensures
        report_index(reports, id) == report_index(reports.take(n), id),
    decreases reports.len() - n,
{
    if n < reports.len() {
        assert(reports.take(n + 1).drop_last() =~= reports.take(n));
        lemma_report_index_stable(reports, id, n + 1);
    } else {
        assert(reports.take(n) =~= reports);
    }
}

/// The report to show: the one last selected when it is among the reports,
/// else none; with nothing selected before, the first report.
pub fn active_report_index(reports: &[Report], saved: Option<&SelectedReportId>) -> (r: Option<usize>)
    ensures
        match saved {
            Some(s) => match report_index(reports@, s.report_id@) {
                None => r is None,
                Some(i) => r == Some(i as usize),
            },
            None => if reports@.len() > 0 { r == Some(0usize) } else { r is None },
        },
{
    match saved {
        Some(s) => find_report(reports, s.report_id.as_str()),
        None => if reports.len() > 0 { Some(0) } else { None },
    }
}

} // verus!

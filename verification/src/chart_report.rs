//! What a report shows: the traces of a graph report and the rows of a grid
//! report, built from the user's practices and the report's entries.
use vstd::prelude::*;
use crate::chart_data::{GraphAverage, average_spec, average_value, overflow_time, times_overflow, y_value, y_value_text};
use crate::charts::{GraphType, GridReport, PracticeTrace, YAxis, texts};
use crate::dates::iso_date_text;
use crate::model::{CobDate, PracticeDataType, ReportDataEntry, date_lt, valid_date};
use crate::csv_export::entry_text;
use crate::text::str_equal;

verus! {

/// A practice of the user.
#[derive(Clone, Debug, PartialEq)]
pub struct UserPractice {
    pub id: String,
    pub practice: String,
    pub data_type: PracticeDataType,
    pub is_active: bool,
    pub is_required: Option<bool>,
}

/// A trace as the chart draws it.
#[derive(Clone, Debug, PartialEq)]
pub struct Graph {
    pub name: Option<String>,
    pub type_: GraphType,
    pub x_values: Vec<String>,
    pub y_values: Vec<String>,
    pub y_axis_type: PracticeDataType,
    pub y_axis: Option<YAxis>,
    pub average: Option<GraphAverage>,
}

/// The index of the first practice with the given id.
pub open spec fn practice_index(practices: Seq<UserPractice>, id: Seq<char>) -> Option<int>
    decreases practices.len(),
{
    if practices.len() == 0 {
        None
    } else {
        match practice_index(practices.drop_last(), id) {
            Some(i) => Some(i),
            None => if practices.last().id@ == id { Some(practices.len() - 1) } else { None },
        }
    }
}

proof fn lemma_practice_index_step(practices: Seq<UserPractice>, id: Seq<char>, i: int)
    requires
        0 <= i < practices.len(),
        practice_index(practices.take(i), id) is None,
    ensures
        practice_index(practices.take(i + 1), id) == (if practices[i].id@ == id { Some(i) } else { None::<int> }),
{
    assert(practices.take(i + 1).drop_last() =~= practices.take(i));
}

proof fn lemma_practice_index_stable(practices: Seq<UserPractice>, id: Seq<char>, n: int)
    requires
        0 <= n <= practices.len(),
        practice_index(practices.take(n), id) is Some,
    ensures
        practice_index(practices, id) == practice_index(practices.take(n), id),
    decreases practices.len() - n,
{
    if n < practices.len() {
        assert(practices.take(n + 1).drop_last() =~= practices.take(n));
        lemma_practice_index_stable(practices, id, n + 1);
    } else {
        assert(practices.take(n) =~= practices);
    }
}

pub proof fn lemma_practice_index_range(practices: Seq<UserPractice>, id: Seq<char>)
    ensures
        practice_index(practices, id) matches Some(i) ==> 0 <= i < practices.len() && practices[i].id@ == id,
    decreases practices.len(),
{
    if practices.len() > 0 {
        lemma_practice_index_range(practices.drop_last(), id);
    }
}

/// Finds the practice with the given id.
pub fn find_practice(practices: &[UserPractice], id: &str) -> (r: Option<usize>)
    ensures
        match practice_index(practices@, id@) {
            None => r is None,
            Some(i) => r == Some(i as usize),
        },
{
    let mut i: usize = 0;
    while i < practices.len()
        invariant
            i <= practices@.len(),
            practice_index(practices@.take(i as int), id@) is None,
        decreases practices@.len() - i,
    {
        proof { lemma_practice_index_step(practices@, id@, i as int); }
        if str_equal(practices[i].id.as_str(), id) {
            proof { lemma_practice_index_stable(practices@, id@, i + 1); }
            return Some(i);
        }
        i += 1;
    }
    assert(practices@.take(practices@.len() as int) =~= practices@);
    None
}

/// The entries of the practice named `name`, in order.
pub open spec fn entries_of(data: Seq<ReportDataEntry>, name: Seq<char>) -> Seq<ReportDataEntry>
    decreases data.len(),
{
    if data.len() == 0 {
        Seq::empty()
    } else if data.last().practice@ == name {
        entries_of(data.drop_last(), name).push(data.last())
    } else {
        entries_of(data.drop_last(), name)
    }
}

impl ReportDataEntry {
    /// A copy of the entry.
    pub fn copy(&self) -> (r: ReportDataEntry)
        ensures
            r == *self,
    {
        ReportDataEntry {
            cob_date: self.cob_date,
            practice: self.practice.clone(),
            value: match &self.value {
                Some(v) => Some(v.copy()),
                None => None,
            },
        }
    }
}

/// The entries of the practice named `name`.
pub fn select_entries(data: &[ReportDataEntry], name: &str) -> (r: Vec<ReportDataEntry>)
    ensures
        r@ == entries_of(data@, name@),
{
    let mut out: Vec<ReportDataEntry> = Vec::new();
    let mut i: usize = 0;
    while i < data.len()
        invariant
            i <= data@.len(),
            out@ == entries_of(data@.take(i as int), name@),
        decreases data@.len() - i,
    {
        assert(data@.take(i + 1).drop_last() =~= data@.take(i as int));
        if str_equal(data[i].practice.as_str(), name) {
            out.push(data[i].copy());
        }
        i += 1;
    }
    assert(data@.take(data@.len() as int) =~= data@);
    out
}

/// The texts of a vector of strings.
pub open spec fn string_texts(v: Seq<String>) -> Seq<Seq<char>> {
    v.map_values(|s: String| s@)
}

/// The practice a trace plots, when it names one of the practices.
pub open spec fn trace_practice(trace: PracticeTrace, practices: Seq<UserPractice>) -> Option<UserPractice> {
    match trace.practice {
        Some(id) => match practice_index(practices, id@) {
            Some(i) => Some(practices[i]),
            None => None,
        },
        None => None,
    }
}

/// The trace's entries: those of its practice.
pub open spec fn trace_entries(trace: PracticeTrace, practices: Seq<UserPractice>, data: Seq<ReportDataEntry>) -> Seq<ReportDataEntry> {
    match trace_practice(trace, practices) {
        Some(p) => entries_of(data, p.practice@),
        None => Seq::empty(),
    }
}

/// Whether the trace's times are placed across midnight.
pub open spec fn trace_adjusts_time(trace: PracticeTrace, practices: Seq<UserPractice>, data: Seq<ReportDataEntry>) -> bool {
    match trace_practice(trace, practices) {
        Some(p) => p.data_type == PracticeDataType::Time && times_overflow(trace_entries(trace, practices, data)),
        None => false,
    }
}

/// The graph drawn for a trace that names a practice: one point per entry
/// of the practice (its date and y value), the practice's kind as the kind of
/// the y axis (counts when the practice is not found), and the average when
/// the trace shows it.
pub open spec fn graph_spec(
    trace: PracticeTrace,
    practices: Seq<UserPractice>,
    data: Seq<ReportDataEntry>,
    today: CobDate,
    g: Graph,
) -> bool {
    let es = trace_entries(trace, practices, data);
    let adjust = trace_adjusts_time(trace, practices, data);
    &&& crate::charts::same_text(g.name, trace.label)
    &&& g.type_ == trace.type_
    &&& g.y_axis == trace.y_axis
    &&& string_texts(g.x_values@) == es.map_values(|e: ReportDataEntry| iso_date_text(e.cob_date))
    &&& match trace_practice(trace, practices) {
        Some(p) => {
            &&& g.y_axis_type == p.data_type
            &&& string_texts(g.y_values@) == es.map_values(|e: ReportDataEntry| y_value_text(p.data_type, e, adjust))
            &&& if trace.show_average {
                match average_spec(p.data_type, es, adjust, today) {
                    None => g.average is None,
                    Some((value, label)) => g.average matches Some(a) && a.value@ == value && a.label@ == label,
                }
            } else {
                g.average is None
            }
        },
        None => {
            &&& g.y_axis_type == PracticeDataType::Int
            &&& g.y_values@.len() == 0
            &&& g.average is None
        },
    }
}

fn copy_label(a: &Option<String>) -> (r: Option<String>)
    ensures
        crate::charts::same_text(r, *a),
{
    match a {
        Some(s) => Some(s.clone()),
        None => None,
    }
}

/// The graph of a trace that names a practice.
pub fn graph_trace(trace: &PracticeTrace, practices: &[UserPractice], report_data: &[ReportDataEntry], today: &CobDate) -> (r: Graph)
    requires
        trace.practice is Some,
        forall|i: int| 0 <= i < report_data@.len() ==> valid_date((#[trigger] report_data@[i]).cob_date),
        report_data@.len() < 0x1_0000_0000,
    ensures
        graph_spec(*trace, practices@, report_data@, *today, r),
{
    let id = match &trace.practice {
        Some(id) => id,
        None => { return Graph { name: None, type_: GraphType::Bar, x_values: Vec::new(), y_values: Vec::new(), y_axis_type: PracticeDataType::Int, y_axis: None, average: None }; },
    };
    let selected = find_practice(practices, id.as_str());
    proof { lemma_practice_index_range(practices@, id@); }
    let entries = match selected {
        Some(i) => select_entries(report_data, practices[i].practice.as_str()),
        None => Vec::new(),
    };
    proof {
        entries_of_within(report_data@, match selected { Some(i) => practices@[i as int].practice@, None => Seq::empty() });
    }
    let adjust_time = match selected {
        Some(i) => practices[i].data_type == PracticeDataType::Time && overflow_time(entries.as_slice()),
        None => false,
    };
    let ghost es = entries@;
    assert(es == trace_entries(*trace, practices@, report_data@));
    assert(adjust_time == trace_adjusts_time(*trace, practices@, report_data@));
    let mut x_values: Vec<String> = Vec::new();
    let mut y_values: Vec<String> = Vec::new();
    let mut k: usize = 0;
    while k < entries.len()
        invariant
            es == entries@,
            k <= es.len(),
            forall|j: int| 0 <= j < es.len() ==> valid_date((#[trigger] es[j]).cob_date),
            string_texts(x_values@) == es.take(k as int).map_values(|e: ReportDataEntry| iso_date_text(e.cob_date)),
            selected matches Some(i) ==> i < practices@.len() && string_texts(y_values@) == es.take(k as int).map_values(
                |e: ReportDataEntry| y_value_text(practices@[i as int].data_type, e, adjust_time),
            ),
            selected is None ==> y_values@.len() == 0,
        decreases es.len() - k,
    {
        let e = &entries[k];
        let x = e.cob_date.to_iso_string();
        let ghost xs = string_texts(x_values@);
        x_values.push(x);
        assert(string_texts(x_values@) =~= xs.push(iso_date_text(es[k as int].cob_date)));
        match selected {
            Some(i) => {
                let ghost ys = string_texts(y_values@);
                let y = y_value(&practices[i].data_type, e, adjust_time);
                y_values.push(y);
                assert(string_texts(y_values@) =~= ys.push(y_value_text(practices@[i as int].data_type, es[k as int], adjust_time)));
            },
            None => {},
        }
        k += 1;
        assert(es.take(k as int) =~= es.take(k - 1).push(es[k - 1]));
    }
    assert(es.take(es.len() as int) =~= es);
    let average = match selected {
        Some(i) => if trace.show_average {
            average_value(&practices[i].data_type, entries.as_slice(), adjust_time, today)
        } else {
            None
        },
        None => None,
    };
    let y_axis_type = match selected {
        Some(i) => practices[i].data_type,
        None => PracticeDataType::Int,
    };
    Graph {
        name: copy_label(&trace.label),
        type_: trace.type_,
        x_values,
        y_values,
        y_axis_type,
        y_axis: trace.y_axis,
        average,
    }
}

proof fn entries_of_within(data: Seq<ReportDataEntry>, name: Seq<char>)
    ensures
        entries_of(data, name).len() <= data.len(),
        forall|j: int| 0 <= j < entries_of(data, name).len() ==> exists|k: int| 0 <= k < data.len() && data[k] == #[trigger] entries_of(data, name)[j],
    decreases data.len(),
{
    if data.len() > 0 {
        entries_of_within(data.drop_last(), name);
        assert forall|j: int| 0 <= j < entries_of(data, name).len() implies exists|k: int| 0 <= k < data.len() && data[k] == #[trigger] entries_of(data, name)[j] by {
            let rest = entries_of(data.drop_last(), name);
            if j < rest.len() {
                let k = choose|k: int| 0 <= k < data.drop_last().len() && data.drop_last()[k] == rest[j];
                assert(data[k] == data.drop_last()[k]);
            } else {
                assert(data[data.len() - 1] == entries_of(data, name)[j]);
            }
        }
    }
}

} // verus!

verus! {

/// The traces that name a practice, in order.
pub open spec fn traced(traces: Seq<PracticeTrace>) -> Seq<PracticeTrace>
    decreases traces.len(),
{
    if traces.len() == 0 {
        Seq::empty()
    } else if traces.last().practice is Some {
        traced(traces.drop_last()).push(traces.last())
    } else {
        traced(traces.drop_last())
    }
}

/// The graphs of a graph report: one for each trace that names a practice.
pub fn graph_traces(traces: &[PracticeTrace], practices: &[UserPractice], report_data: &[ReportDataEntry], today: &CobDate) -> (r: Vec<Graph>)
    requires
        forall|i: int| 0 <= i < report_data@.len() ==> valid_date((#[trigger] report_data@[i]).cob_date),
        report_data@.len() < 0x1_0000_0000,
    ensures
        r@.len() == traced(traces@).len(),
        forall|k: int| 0 <= k < r@.len() ==> graph_spec(traced(traces@)[k], practices@, report_data@, *today, #[trigger] r@[k]),
{
    let mut out: Vec<Graph> = Vec::new();
    let mut i: usize = 0;
    while i < traces.len()
        invariant
            i <= traces@.len(),
            forall|j: int| 0 <= j < report_data@.len() ==> valid_date((#[trigger] report_data@[j]).cob_date),
            report_data@.len() < 0x1_0000_0000,
            out@.len() == traced(traces@.take(i as int)).len(),
            forall|k: int| 0 <= k < out@.len() ==> graph_spec(traced(traces@.take(i as int))[k], practices@, report_data@, *today, #[trigger] out@[k]),
        decreases traces@.len() - i,
    {
        assert(traces@.take(i + 1).drop_last() =~= traces@.take(i as int));
        if traces[i].practice.is_some() {
            let g = graph_trace(&traces[i], practices, report_data, today);
            out.push(g);
        }
        i += 1;
    }
    assert(traces@.take(traces@.len() as int) =~= traces@);
    out
}

/// Whether the grid report holds the practice id.
pub open spec fn grid_has(gr: GridReport, id: Seq<char>) -> bool {
    texts(gr.practices@).contains(id)
}

/// The names of the practices of a grid report, in the order of the user's
/// practices.
pub open spec fn grid_names(gr: GridReport, practices: Seq<UserPractice>) -> Seq<Seq<char>>
    decreases practices.len(),
{
    if practices.len() == 0 {
        Seq::empty()
    } else if grid_has(gr, practices.last().id@) {
        grid_names(gr, practices.drop_last()).push(practices.last().practice@)
    } else {
        grid_names(gr, practices.drop_last())
    }
}

fn grid_contains(gr: &GridReport, id: &str) -> (r: bool)
    ensures
        r == grid_has(*gr, id@),
{
    let mut i: usize = 0;
    while i < gr.practices.len()
        invariant
            i <= gr.practices@.len(),
            forall|j: int| 0 <= j < i ==> gr.practices@[j]@ != id@,
        decreases gr.practices@.len() - i,
    {
        if str_equal(gr.practices[i].as_str(), id) {
            assert(texts(gr.practices@)[i as int] == id@);
            return true;
        }
        i += 1;
    }
    assert forall|j: int| 0 <= j < texts(gr.practices@).len() implies texts(gr.practices@)[j] != id@ by {
        assert(texts(gr.practices@)[j] == gr.practices@[j]@);
    }
    false
}

/// The column headers of a grid report: the names of its practices.
pub fn grid_header(gr: &GridReport, practices: &[UserPractice]) -> (r: Vec<String>)
    ensures
        string_texts(r@) == grid_names(*gr, practices@),
{
    let mut out: Vec<String> = Vec::new();
    let mut i: usize = 0;
    while i < practices.len()
        invariant
            i <= practices@.len(),
            string_texts(out@) == grid_names(*gr, practices@.take(i as int)),
        decreases practices@.len() - i,
    {
        assert(practices@.take(i + 1).drop_last() =~= practices@.take(i as int));
        if grid_contains(gr, practices[i].id.as_str()) {
            let ghost before = string_texts(out@);
            out.push(practices[i].practice.clone());
            assert(string_texts(out@) =~= before.push(practices@[i as int].practice@));
        }
        i += 1;
    }
    assert(practices@.take(practices@.len() as int) =~= practices@);
    out
}

/// A row of a grid report: a day and the text of each of its entries.
pub struct GridRow {
    pub cob_date: CobDate,
    pub cells: Vec<String>,
}

/// The texts of the entries on `date` whose practice is one of `names`.
pub open spec fn day_cells(data: Seq<ReportDataEntry>, names: Seq<Seq<char>>, date: CobDate) -> Seq<Seq<char>>
    decreases data.len(),
{
    if data.len() == 0 {
        Seq::empty()
    } else if names.contains(data.last().practice@) && data.last().cob_date == date {
        day_cells(data.drop_last(), names, date).push(entry_text(data.last()))
    } else {
        day_cells(data.drop_last(), names, date)
    }
}

/// The rows of a grid: one per day that has an entry of one of the named
/// practices, in order of days, holding the texts of those entries.
pub open spec fn grid_rows_spec(data: Seq<ReportDataEntry>, names: Seq<Seq<char>>, rows: Seq<GridRow>) -> bool {
    &&& forall|a: int, b: int| 0 <= a < b < rows.len() ==> date_lt(rows[a].cob_date, rows[b].cob_date)
    &&& forall|r: int| 0 <= r < rows.len() ==> string_texts((#[trigger] rows[r]).cells@) == day_cells(data, names, rows[r].cob_date)
        && rows[r].cells@.len() > 0
    &&& forall|j: int| 0 <= j < data.len() && names.contains((#[trigger] data[j]).practice@)
        ==> exists|r: int| 0 <= r < rows.len() && rows[r].cob_date == data[j].cob_date
}

proof fn lemma_day_cells_step(data: Seq<ReportDataEntry>, names: Seq<Seq<char>>, i: int, date: CobDate)
    requires
        0 <= i < data.len(),
    ensures
        day_cells(data.take(i + 1), names, date) == if names.contains(data[i].practice@) && data[i].cob_date == date {
            day_cells(data.take(i), names, date).push(entry_text(data[i]))
        } else {
            day_cells(data.take(i), names, date)
        },
{
    assert(data.take(i + 1).drop_last() =~= data.take(i));
}

proof fn lemma_day_cells_empty(data: Seq<ReportDataEntry>, names: Seq<Seq<char>>, date: CobDate)
    requires
        forall|j: int| 0 <= j < data.len() && names.contains((#[trigger] data[j]).practice@) ==> data[j].cob_date != date,
    ensures
        day_cells(data, names, date).len() == 0,
    decreases data.len(),
{
    if data.len() > 0 {
        lemma_day_cells_empty(data.drop_last(), names, date);
    }
}

fn names_contain(names: &Vec<String>, name: &str) -> (r: bool)
    ensures
        r == string_texts(names@).contains(name@),
{
    let mut i: usize = 0;
    while i < names.len()
        invariant
            i <= names@.len(),
            forall|j: int| 0 <= j < i ==> names@[j]@ != name@,
        decreases names@.len() - i,
    {
        if str_equal(names[i].as_str(), name) {
            assert(string_texts(names@)[i as int] == name@);
            return true;
        }
        i += 1;
    }
    assert forall|j: int| 0 <= j < string_texts(names@).len() implies string_texts(names@)[j] != name@ by {
        assert(string_texts(names@)[j] == names@[j]@);
    }
    false
}

/// The rows of a grid report: for each day (in order) with entries of the
/// grid's practices, the texts of those entries.
pub fn grid_rows(gr: &GridReport, practices: &[UserPractice], report_data: &[ReportDataEntry]) -> (r: Vec<GridRow>)
    ensures
        grid_rows_spec(report_data@, grid_names(*gr, practices@), r@),
{
    let names = grid_header(gr, practices);
    let ghost ns = string_texts(names@);
    let ghost data = report_data@;
    let mut rows: Vec<GridRow> = Vec::new();
    let mut i: usize = 0;
    while i < report_data.len()
        invariant
            i <= data.len(),
            data == report_data@,
            ns == string_texts(names@),
            grid_rows_spec(data.take(i as int), ns, rows@),
        decreases data.len() - i,
    {
        let e = &report_data[i];
        proof {
            assert forall|d: CobDate| #[trigger] day_cells(data.take(i + 1), ns, d) == if ns.contains(data[i as int].practice@) && data[i as int].cob_date == d {
                day_cells(data.take(i as int), ns, d).push(entry_text(data[i as int]))
            } else {
                day_cells(data.take(i as int), ns, d)
            } by {
                lemma_day_cells_step(data, ns, i as int, d);
            }
            assert forall|j: int| 0 <= j < i implies data.take(i + 1)[j] == #[trigger] data.take(i as int)[j] by {}
        }
        if names_contain(&names, e.practice.as_str()) {
            let text = match &e.value {
                Some(v) => v.to_text(),
                None => String::new(),
            };
            assert(text@ == entry_text(data[i as int]));
            // Find the row of the day, or where it belongs.
            let mut pos: usize = 0;
            while pos < rows.len() && rows[pos].cob_date.before(&e.cob_date)
                invariant
                    pos <= rows@.len(),
                    forall|r: int| 0 <= r < pos ==> date_lt(rows@[r].cob_date, e.cob_date),
                decreases rows@.len() - pos,
            {
                pos += 1;
            }
            let ghost old_rows = rows@;
            if pos < rows.len() && rows[pos].cob_date.same_day(&e.cob_date) {
                let mut row = rows.remove(pos);
                let ghost old_cells = string_texts(row.cells@);
                row.cells.push(text);
                assert(string_texts(row.cells@) =~= old_cells.push(entry_text(data[i as int])));
                rows.insert(pos, row);
                proof {
                    assert forall|r: int| 0 <= r < rows@.len() implies string_texts((#[trigger] rows@[r]).cells@) == day_cells(data.take(i + 1), ns, rows@[r].cob_date)
                        && rows@[r].cells@.len() > 0 by {
                        if r != pos {
                            assert(rows@[r] == old_rows[r]);
                            if rows@[r].cob_date == e.cob_date {
                                if r < pos {
                                    assert(date_lt(old_rows[r].cob_date, old_rows[pos as int].cob_date));
                                } else {
                                    assert(date_lt(old_rows[pos as int].cob_date, old_rows[r].cob_date));
                                }
                            }
                        }
                    }
                    assert forall|j: int| 0 <= j < i + 1 && ns.contains((#[trigger] data.take(i + 1)[j]).practice@)
                        implies exists|r: int| 0 <= r < rows@.len() && rows@[r].cob_date == data.take(i + 1)[j].cob_date by {
                        if j < i {
                            assert(data.take(i + 1)[j] == data.take(i as int)[j]);
                            let r = choose|r: int| 0 <= r < old_rows.len() && old_rows[r].cob_date == data.take(i as int)[j].cob_date;
                            assert(rows@[r].cob_date == old_rows[r].cob_date);
                        } else {
                            assert(rows@[pos as int].cob_date == e.cob_date);
                        }
                    }
                }
            } else {
                let mut cells: Vec<String> = Vec::new();
                cells.push(text);
                let row = GridRow { cob_date: e.cob_date, cells };
                rows.insert(pos, row);
                proof {
                    assert forall|d: int| 0 <= d < old_rows.len() implies old_rows[d].cob_date != e.cob_date by {
                        if d >= pos {
                            if d > pos {
                                assert(date_lt(old_rows[pos as int].cob_date, old_rows[d].cob_date));
                            }
                        }
                    }
                    assert forall|j: int| 0 <= j < i && ns.contains((#[trigger] data.take(i as int)[j]).practice@)
                        implies data.take(i as int)[j].cob_date != e.cob_date by {
                        let r = choose|r: int| 0 <= r < old_rows.len() && old_rows[r].cob_date == data.take(i as int)[j].cob_date;
                    }
                    lemma_day_cells_empty(data.take(i as int), ns, e.cob_date);
                    assert(string_texts(cells@) =~= seq![entry_text(data[i as int])]);
                    assert forall|a: int, b: int| 0 <= a < b < rows@.len() implies date_lt(rows@[a].cob_date, rows@[b].cob_date) by {
                        let oa = if a < pos { a } else { a - 1 };
                        let ob = if b < pos { b } else { b - 1 };
                        if a == pos {
                            if pos < old_rows.len() {
                                assert(!date_lt(old_rows[pos as int].cob_date, e.cob_date));
                                if ob > pos {
                                    assert(date_lt(old_rows[pos as int].cob_date, old_rows[ob].cob_date));
                                }
                            }
                        } else if b == pos {
                        } else {
                            assert(rows@[a] == old_rows[oa]);
                            assert(rows@[b] == old_rows[ob]);
                        }
                    }
                    assert forall|r: int| 0 <= r < rows@.len() implies string_texts((#[trigger] rows@[r]).cells@) == day_cells(data.take(i + 1), ns, rows@[r].cob_date)
                        && rows@[r].cells@.len() > 0 by {
                        if r < pos {
                            assert(rows@[r] == old_rows[r]);
                        } else if r > pos {
                            assert(rows@[r] == old_rows[r - 1]);
                        }
                    }
                    assert forall|j: int| 0 <= j < i + 1 && ns.contains((#[trigger] data.take(i + 1)[j]).practice@)
                        implies exists|r: int| 0 <= r < rows@.len() && rows@[r].cob_date == data.take(i + 1)[j].cob_date by {
                        if j < i {
                            assert(data.take(i + 1)[j] == data.take(i as int)[j]);
                            let r = choose|r: int| 0 <= r < old_rows.len() && old_rows[r].cob_date == data.take(i as int)[j].cob_date;
                            if r < pos {
                                assert(rows@[r] == old_rows[r]);
                            } else {
                                assert(rows@[r + 1] == old_rows[r]);
                            }
                        } else {
                            assert(rows@[pos as int].cob_date == e.cob_date);
                        }
                    }
                }
            }
        } else {
            proof {
                assert forall|j: int| 0 <= j < i + 1 && ns.contains((#[trigger] data.take(i + 1)[j]).practice@)
                    implies exists|r: int| 0 <= r < rows@.len() && rows@[r].cob_date == data.take(i + 1)[j].cob_date by {
                    assert(data.take(i + 1)[j] == data.take(i as int)[j]);
                }
            }
        }
        i += 1;
    }
    assert(data.take(data.len() as int) =~= data);
    rows
}

} // verus!

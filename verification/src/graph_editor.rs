//! Editing a graph report: changes to its traces, and which axes and
//! practices each trace may choose (an axis is shared only by practices of
//! one kind).
use vstd::prelude::*;
use crate::chart_report::UserPractice;
use crate::charts::{BarGraphLayout, GraphReport, GraphType, LineConf, LineStyle, PracticeTrace, YAxis};
use crate::model::PracticeDataType;
use crate::release_channel::{trim, trim_text};
use crate::text::str_equal;

verus! {

/// The kind of the practice with id `id`; the last practice with that id
/// decides.
pub open spec fn type_by_id(practices: Seq<UserPractice>, id: Seq<char>) -> Option<PracticeDataType>
    decreases practices.len(),
{
    if practices.len() == 0 {
        None
    } else if practices.last().id@ == id {
        Some(practices.last().data_type)
    } else {
        type_by_id(practices.drop_last(), id)
    }
}

/// The kind of the practice with id `id`.
pub fn find_type_by_id(practices: &[UserPractice], id: &str) -> (r: Option<PracticeDataType>)
    ensures
        r == type_by_id(practices@, id@),
{
    let mut i: usize = practices.len();
    assert(practices@.take(i as int) =~= practices@);
    while i > 0
        invariant
            i <= practices@.len(),
            type_by_id(practices@, id@) == type_by_id(practices@.take(i as int), id@),
        decreases i,
    {
        assert(practices@.take(i as int).drop_last() =~= practices@.take(i - 1));
        if str_equal(practices[i - 1].id.as_str(), id) {
            return Some(practices[i - 1].data_type);
        }
        i -= 1;
    }
    None
}

/// The axis of a trace; a trace without one is on the first axis.
pub open spec fn axis_or_first(axis: Option<YAxis>) -> YAxis {
    match axis {
        Some(a) => a,
        None => YAxis::Y,
    }
}

/// Whether two traces' axes are the same, a missing axis being the first.
pub fn axes_eq(l: Option<YAxis>, r: Option<YAxis>) -> (b: bool)
    ensures
        b == (axis_or_first(l) == axis_or_first(r)),
{
    let a = match l {
        Some(x) => x,
        None => YAxis::Y,
    };
    let c = match r {
        Some(x) => x,
        None => YAxis::Y,
    };
    a == c
}

/// Whether a trace other than the one at `trace_idx` is on `axis`.
pub open spec fn shared_axis(traces: Seq<PracticeTrace>, trace_idx: int, axis: Option<YAxis>) -> bool {
    exists|j: int| 0 <= j < traces.len() && j != trace_idx && axis_or_first(#[trigger] traces[j].y_axis) == axis_or_first(axis)
}

/// Whether a trace other than the one at `trace_idx` is on `axis`.
pub fn is_shared_axis(traces: &[PracticeTrace], trace_idx: usize, axis: Option<YAxis>) -> (r: bool)
    ensures
        r == shared_axis(traces@, trace_idx as int, axis),
{
    let mut j: usize = 0;
    while j < traces.len()
        invariant
            j <= traces@.len(),
            forall|k: int| 0 <= k < j && k != trace_idx ==> axis_or_first(#[trigger] traces@[k].y_axis) != axis_or_first(axis),
        decreases traces@.len() - j,
    {
        if j != trace_idx && axes_eq(traces[j].y_axis, axis) {
            return true;
        }
        j += 1;
    }
    false
}

/// Whether trace `t` keeps a trace of kind `trace_type` off axis `a`: it is
/// on that axis and plots a practice of another kind.
pub open spec fn blocks_axis(t: PracticeTrace, practices: Seq<UserPractice>, trace_type: Option<PracticeDataType>, a: YAxis) -> bool {
    &&& t.y_axis == Some(a)
    &&& match (trace_type, t.practice) {
        (Some(d1), Some(p)) => match type_by_id(practices, p@) {
            Some(d) => d != d1,
            None => false,
        },
        _ => false,
    }
}

/// Whether some trace keeps a trace of kind `trace_type` off axis `a`.
pub open spec fn axis_unusable(traces: Seq<PracticeTrace>, practices: Seq<UserPractice>, trace_type: Option<PracticeDataType>, a: YAxis) -> bool {
    exists|j: int| 0 <= j < traces.len() && blocks_axis(#[trigger] traces[j], practices, trace_type, a)
}

fn is_axis_unusable(traces: &[PracticeTrace], practices: &[UserPractice], trace_type: Option<PracticeDataType>, a: YAxis) -> (r: bool)
    ensures
        r == axis_unusable(traces@, practices@, trace_type, a),
{
    let mut j: usize = 0;
    while j < traces.len()
        invariant
            j <= traces@.len(),
            forall|k: int| 0 <= k < j ==> !blocks_axis(#[trigger] traces@[k], practices@, trace_type, a),
        decreases traces@.len() - j,
    {
        let t = &traces[j];
        if t.y_axis == Some(a) {
            match (trace_type, &t.practice) {
                (Some(d1), Some(p)) => {
                    match find_type_by_id(practices, p.as_str()) {
                        Some(d) => {
                            if d != d1 {
                                assert(blocks_axis(traces@[j as int], practices@, trace_type, a));
                                return true;
                            }
                        },
                        None => {},
                    }
                },
                _ => {},
            }
        }
        j += 1;
    }
    false
}

/// All axes, in the order they are offered.
pub open spec fn all_axes() -> Seq<YAxis> {
    seq![YAxis::Y, YAxis::Y2, YAxis::Y3, YAxis::Y4, YAxis::Y5, YAxis::Y6, YAxis::Y7, YAxis::Y8]
}

/// The axes of `s` that no trace keeps a trace of kind `trace_type` off, in order.
pub open spec fn usable_axes(s: Seq<YAxis>, traces: Seq<PracticeTrace>, practices: Seq<UserPractice>, trace_type: Option<PracticeDataType>) -> Seq<YAxis>
    decreases s.len(),
{
    if s.len() == 0 {
        Seq::empty()
    } else if axis_unusable(traces, practices, trace_type, s.last()) {
        usable_axes(s.drop_last(), traces, practices, trace_type)
    } else {
        usable_axes(s.drop_last(), traces, practices, trace_type).push(s.last())
    }
}

/// The kind of the practice a trace plots, when it is known.
pub open spec fn trace_type(practices: Seq<UserPractice>, practice: Option<Seq<char>>) -> Option<PracticeDataType> {
    match practice {
        Some(p) => type_by_id(practices, p),
        None => None,
    }
}

/// The axes offered to a trace that plots `practice`: every axis but those
/// holding a practice of another kind.
pub fn axes_for_trace(traces: &[PracticeTrace], practices: &[UserPractice], practice: Option<&String>) -> (r: Vec<YAxis>)
    ensures
        r@ == usable_axes(all_axes(), traces@, practices@, trace_type(practices@, match practice {
            Some(p) => Some(p@),
            None => None,
        })),
{
    let ghost tt = trace_type(practices@, match practice {
        Some(p) => Some(p@),
        None => None,
    });
    let dt: Option<PracticeDataType> = match practice {
        Some(p) => find_type_by_id(practices, p.as_str()),
        None => None,
    };
    assert(dt == tt);
    let all = [YAxis::Y, YAxis::Y2, YAxis::Y3, YAxis::Y4, YAxis::Y5, YAxis::Y6, YAxis::Y7, YAxis::Y8];
    assert(all@ == all_axes());
    let mut out: Vec<YAxis> = Vec::new();
    let mut i: usize = 0;
    while i < 8
        invariant
            i <= 8,
            all@ == all_axes(),
            dt == tt,
            out@ == usable_axes(all@.take(i as int), traces@, practices@, dt),
        decreases 8 - i,
    {
        let a = all[i];
        assert(all@.take(i + 1).drop_last() =~= all@.take(i as int));
        if !is_axis_unusable(traces, practices, dt, a) {
            out.push(a);
        }
        i += 1;
    }
    assert(all@.take(8) =~= all@);
    out
}

/// The practice of the first trace on `axis` that has one.
pub open spec fn axis_practice(traces: Seq<PracticeTrace>, axis: Option<YAxis>) -> Option<Seq<char>>
    decreases traces.len(),
{
    if traces.len() == 0 {
        None
    } else if axis_or_first(traces[0].y_axis) == axis_or_first(axis) && traces[0].practice is Some {
        Some(traces[0].practice->0@)
    } else {
        axis_practice(traces.drop_first(), axis)
    }
}

fn find_axis_practice(traces: &[PracticeTrace], axis: Option<YAxis>) -> (r: Option<&String>)
    ensures
        match r {
            Some(p) => axis_practice(traces@, axis) == Some(p@),
            None => axis_practice(traces@, axis) is None,
        },
{
    let mut i: usize = 0;
    assert(traces@.skip(0) =~= traces@);
    while i < traces.len()
        invariant
            i <= traces@.len(),
            axis_practice(traces@, axis) == axis_practice(traces@.skip(i as int), axis),
        decreases traces@.len() - i,
    {
        assert(traces@.skip(i as int).drop_first() =~= traces@.skip(i + 1));
        assert(traces@.skip(i as int)[0] == traces@[i as int]);
        if axes_eq(traces[i].y_axis, axis) {
            match &traces[i].practice {
                Some(p) => {
                    return Some(p);
                },
                None => {},
            }
        }
        i += 1;
    }
    None
}

/// The kind whose practices a trace may choose: when its axis is shared,
/// the kind of its practice, or, while it has none, of the first practice
/// on that axis; otherwise any kind.
pub open spec fn offered_type(traces: Seq<PracticeTrace>, practices: Seq<UserPractice>, trace_idx: int, axis: Option<YAxis>, practice: Option<Seq<char>>) -> Option<PracticeDataType> {
    if shared_axis(traces, trace_idx, axis) {
        match practice {
            Some(p) => type_by_id(practices, p),
            None => match axis_practice(traces, axis) {
                Some(p) => type_by_id(practices, p),
                None => None,
            },
        }
    } else {
        None
    }
}

/// The indices of the first `n` practices that are of kind `data_type`
/// (of any kind when `data_type` is `None`), in order.
pub open spec fn offered_indices(practices: Seq<UserPractice>, data_type: Option<PracticeDataType>, n: int) -> Seq<usize>
    decreases n,
{
    if n <= 0 {
        Seq::empty()
    } else {
        let before = offered_indices(practices, data_type, n - 1);
        match data_type {
            Some(d) => if practices[n - 1].data_type == d { before.push((n - 1) as usize) } else { before },
            None => before.push((n - 1) as usize),
        }
    }
}

/// The practices (by index into `practices`) that the trace at `trace_idx`
/// may choose.
pub fn practices_for_trace(
    traces: &[PracticeTrace],
    practices: &[UserPractice],
    trace_idx: usize,
    axis: Option<YAxis>,
    practice: Option<&String>,
) -> (r: Vec<usize>)
    ensures
        r@ == offered_indices(practices@, offered_type(traces@, practices@, trace_idx as int, axis, match practice {
            Some(p) => Some(p@),
            None => None,
        }), practices@.len() as int),
{
    let ghost wanted = offered_type(traces@, practices@, trace_idx as int, axis, match practice {
        Some(p) => Some(p@),
        None => None,
    });
    let dt: Option<PracticeDataType> = if is_shared_axis(traces, trace_idx, axis) {
        let chosen: Option<&String> = match practice {
            Some(p) => Some(p),
            None => find_axis_practice(traces, axis),
        };
        match chosen {
            Some(p) => find_type_by_id(practices, p.as_str()),
            None => None,
        }
    } else {
        None
    };
    assert(dt == wanted);
    let mut out: Vec<usize> = Vec::new();
    let mut i: usize = 0;
    while i < practices.len()
        invariant
            i <= practices@.len(),
            out@ == offered_indices(practices@, dt, i as int),
        decreases practices@.len() - i,
    {
        match dt {
            Some(d) => {
                if practices[i].data_type == d {
                    out.push(i);
                }
            },
            None => {
                out.push(i);
            },
        }
        i += 1;
    }
    out
}

/// The way of drawing a trace chosen by name: `bar`, `line` or `dot`.
pub open spec fn graph_type_named(choice: Seq<char>) -> GraphType {
    if choice == "bar"@ {
        GraphType::Bar
    } else if choice == "line"@ {
        GraphType::Line(LineConf { style: LineStyle::Regular })
    } else {
        GraphType::Dot
    }
}

/// The way of drawing a trace chosen by name.
pub fn graph_type_for_choice(choice: &str) -> (r: GraphType)
    requires
        choice@ == "bar"@ || choice@ == "line"@ || choice@ == "dot"@,
    ensures
        r == graph_type_named(choice@),
{
    if str_equal(choice, "bar") {
        GraphType::Bar
    } else if str_equal(choice, "line") {
        GraphType::Line(LineConf::new(LineStyle::Regular))
    } else {
        GraphType::Dot
    }
}

/// The label a trace gets from what was typed: the text without surrounding
/// white space, or no label when nothing is left.
pub open spec fn label_from_input(input: Seq<char>) -> Option<Seq<char>> {
    if trim(input).len() == 0 { None } else { Some(trim(input)) }
}

impl GraphReport {
    /// Lays the bars out anew.
    pub fn set_bar_layout(&mut self, layout: BarGraphLayout)
        ensures
            final(self).bar_layout == layout,
            final(self).traces@ == old(self).traces@,
    {
        self.bar_layout = layout;
    }

    /// Plots another practice in the trace at `idx`.
    pub fn set_trace_practice(&mut self, idx: usize, practice: String)
        requires
            idx < old(self).traces@.len(),
        ensures
            final(self).bar_layout == old(self).bar_layout,
            final(self).traces@ == old(self).traces@.update(idx as int, PracticeTrace {
                practice: Some(practice),
                ..old(self).traces@[idx as int]
            }),
    {
        let mut t = self.traces.remove(idx);
        t.practice = Some(practice);
        self.traces.insert(idx, t);
    }

    /// Moves the trace at `idx` to another axis.
    pub fn set_trace_axis(&mut self, idx: usize, axis: YAxis)
        requires
            idx < old(self).traces@.len(),
        ensures
            final(self).bar_layout == old(self).bar_layout,
            final(self).traces@ == old(self).traces@.update(idx as int, PracticeTrace {
                y_axis: Some(axis),
                ..old(self).traces@[idx as int]
            }),
    {
        let mut t = self.traces.remove(idx);
        t.y_axis = Some(axis);
        self.traces.insert(idx, t);
    }

    /// Draws the trace at `idx` in the way chosen by name.
    pub fn set_trace_type(&mut self, idx: usize, choice: &str)
        requires
            idx < old(self).traces@.len(),
            choice@ == "bar"@ || choice@ == "line"@ || choice@ == "dot"@,
        ensures
            final(self).bar_layout == old(self).bar_layout,
            final(self).traces@ == old(self).traces@.update(idx as int, PracticeTrace {
                type_: graph_type_named(choice@),
                ..old(self).traces@[idx as int]
            }),
    {
        let gt = graph_type_for_choice(choice);
        let mut t = self.traces.remove(idx);
        t.type_ = gt;
        self.traces.insert(idx, t);
    }

    /// Labels the trace at `idx` with what was typed.
    pub fn set_trace_label(&mut self, idx: usize, input: &str)
        requires
            idx < old(self).traces@.len(),
        ensures
            final(self).bar_layout == old(self).bar_layout,
            final(self).traces@.len() == old(self).traces@.len(),
            forall|i: int| 0 <= i < old(self).traces@.len() && i != idx ==> final(self).traces@[i] == old(self).traces@[i],
            ({
                let t = final(self).traces@[idx as int];
                let o = old(self).traces@[idx as int];
                &&& t.type_ == o.type_
                &&& t.practice == o.practice
                &&& t.y_axis == o.y_axis
                &&& t.show_average == o.show_average
                &&& match label_from_input(input@) {
                    Some(l) => t.label is Some && t.label->0@ == l,
                    None => t.label is None,
                }
            }),
    {
        let text = trim_text(input);
        let label = if text.as_str().is_empty() { None } else { Some(text) };
        let mut t = self.traces.remove(idx);
        t.label = label;
        self.traces.insert(idx, t);
    }

    /// Shows or hides the average of the trace at `idx`.
    pub fn set_trace_show_average(&mut self, idx: usize, show: bool)
        requires
            idx < old(self).traces@.len(),
        ensures
            final(self).bar_layout == old(self).bar_layout,
            final(self).traces@ == old(self).traces@.update(idx as int, PracticeTrace {
                show_average: show,
                ..old(self).traces@[idx as int]
            }),
    {
        let mut t = self.traces.remove(idx);
        t.show_average = show;
        self.traces.insert(idx, t);
    }

    /// Removes the trace at `idx`.
    pub fn delete_trace(&mut self, idx: usize)
        requires
            idx < old(self).traces@.len(),
        ensures
            final(self).bar_layout == old(self).bar_layout,
            final(self).traces@ == old(self).traces@.remove(idx as int),
    {
        self.traces.remove(idx);
    }

    /// Adds a default trace at the end.
    pub fn add_trace(&mut self)
        ensures
            final(self).bar_layout == old(self).bar_layout,
            final(self).traces@.len() == old(self).traces@.len() + 1,
            final(self).traces@.drop_last() == old(self).traces@,
            final(self).traces@.last().label is None,
            final(self).traces@.last().type_ == GraphType::Bar,
            final(self).traces@.last().practice is None,
            final(self).traces@.last().y_axis is None,
            !final(self).traces@.last().show_average,
    {
        let t = PracticeTrace::default();
        self.traces.push(t);
        assert(self.traces@.drop_last() =~= old(self).traces@);
    }
}

} // verus!

verus! {

proof fn lemma_usable_axes_usable(s: Seq<YAxis>, traces: Seq<PracticeTrace>, practices: Seq<UserPractice>, trace_type: Option<PracticeDataType>, a: YAxis)
    requires
        usable_axes(s, traces, practices, trace_type).contains(a),
    ensures
        !axis_unusable(traces, practices, trace_type, a),
    decreases s.len(),
{
    if s.len() > 0 {
        let rest = usable_axes(s.drop_last(), traces, practices, trace_type);
        if axis_unusable(traces, practices, trace_type, s.last()) {
            lemma_usable_axes_usable(s.drop_last(), traces, practices, trace_type, a);
        } else if a != s.last() {
            assert(rest.push(s.last()).contains(a));
            let k = choose|k: int| 0 <= k < rest.push(s.last()).len() && rest.push(s.last())[k] == a;
            assert(k < rest.len());
            assert(rest[k] == a);
            lemma_usable_axes_usable(s.drop_last(), traces, practices, trace_type, a);
        }
    }
}

/// An axis is shared only by practices of one kind: on every axis offered to
/// a trace of kind `d`, each trace whose practice's kind is known plots a
/// practice of kind `d`.
pub proof fn law_offered_axes_hold_one_kind(
    traces: Seq<PracticeTrace>,
    practices: Seq<UserPractice>,
    d: PracticeDataType,
    a: YAxis,
    j: int,
)
    requires
        usable_axes(all_axes(), traces, practices, Some(d)).contains(a),
        0 <= j < traces.len(),
        traces[j].y_axis == Some(a),
        traces[j].practice is Some,
        type_by_id(practices, traces[j].practice->0@) is Some,
    ensures
        type_by_id(practices, traces[j].practice->0@) == Some(d),
{
    lemma_usable_axes_usable(all_axes(), traces, practices, Some(d), a);
    if type_by_id(practices, traces[j].practice->0@) != Some(d) {
        assert(blocks_axis(traces[j], practices, Some(d), a));
    }
}

proof fn lemma_offered_indices_kind(practices: Seq<UserPractice>, d: PracticeDataType, n: int, k: int)
    requires
        0 <= n <= practices.len(),
        practices.len() <= usize::MAX,
        0 <= k < offered_indices(practices, Some(d), n).len(),
    ensures
        0 <= offered_indices(practices, Some(d), n)[k] < n,
        practices[offered_indices(practices, Some(d), n)[k] as int].data_type == d,
    decreases n,
{
    if n > 0 {
        let before = offered_indices(practices, Some(d), n - 1);
        if practices[n - 1].data_type == d {
            if k < before.len() {
                lemma_offered_indices_kind(practices, d, n - 1, k);
            } else {
                assert(offered_indices(practices, Some(d), n)[k] == (n - 1) as usize);
                assert(((n - 1) as usize) as int == n - 1);
            }
        } else {
            lemma_offered_indices_kind(practices, d, n - 1, k);
        }
    }
}

/// A trace on a shared axis is offered only practices of the kind the axis
/// holds: when the kind is known, every practice offered is of that kind.
pub proof fn law_offered_practices_match_the_axis(
    traces: Seq<PracticeTrace>,
    practices: Seq<UserPractice>,
    trace_idx: int,
    axis: Option<YAxis>,
    practice: Option<Seq<char>>,
    d: PracticeDataType,
    k: int,
)
    requires
        practices.len() <= usize::MAX,
        offered_type(traces, practices, trace_idx, axis, practice) == Some(d),
        0 <= k < offered_indices(practices, Some(d), practices.len() as int).len(),
    ensures
        practices[offered_indices(practices, Some(d), practices.len() as int)[k] as int].data_type == d,
{
    lemma_offered_indices_kind(practices, d, practices.len() as int, k);
}

} // verus!

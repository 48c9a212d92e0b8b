//! Yatras (groups practising together): the statistics an administrator
//! configures, which aggregations suit a practice, and the rows of the
//! stability heatmap.
use vstd::prelude::*;
use crate::chart_report::{UserPractice, practice_index, find_practice, lemma_practice_index_range};
use crate::colour_zones::{BetterDirection, Bound, ColourZonesConfig, ZoneColour};
use crate::model::{PracticeDataType, PracticeEntryValue};
use crate::release_channel::{trim, trim_text};
use crate::text::{chars_of, str_equal, string_of};

verus! {

/// How a statistic combines a practice's values.
#[derive(Clone, Copy, Debug, PartialEq, Eq, Structural)]
pub enum Aggregation {
    Count,
    Sum,
    Avg,
    Min,
    Max,
}

/// The span a statistic covers.
#[derive(Clone, Copy, Debug, PartialEq, Eq, Structural)]
pub enum TimeRange {
    Last7Days,
    Last30Days,
    Last90Days,
    Last365Days,
}

/// A statistic shown for a yatra.
#[derive(Clone, Debug, PartialEq)]
pub struct YatraStatistic {
    pub label: String,
    pub practice_id: String,
    pub aggregation: Aggregation,
    pub time_range: TimeRange,
}

impl YatraStatistic {
    /// An unnamed count over the last week of no practice.
    pub fn new_default() -> (r: YatraStatistic)
        ensures
            r.label@.len() == 0,
            r.practice_id@.len() == 0,
            r.aggregation == Aggregation::Count,
            r.time_range == TimeRange::Last7Days,
    {
        YatraStatistic {
            label: String::new(),
            practice_id: String::new(),
            aggregation: Aggregation::Count,
            time_range: TimeRange::Last7Days,
        }
    }
}

/// The statistics of a yatra and who may see them.
#[derive(Clone, Debug, PartialEq)]
pub struct YatraStatistics {
    pub visible_to_all: bool,
    pub statistics: Vec<YatraStatistic>,
}

/// The kind of the practice `practice_id` among `practices`, when it is known.
pub open spec fn practice_type(practices: Option<Seq<UserPractice>>, practice_id: Seq<char>) -> Option<PracticeDataType> {
    match practices {
        Some(ps) => match practice_index(ps, practice_id) {
            Some(i) => Some(ps[i].data_type),
            None => None,
        },
        None => None,
    }
}

/// Whether an aggregation suits a practice: any for counts and durations,
/// anything but a sum for times, only a count for other kinds and for a
/// practice that is not known.
pub open spec fn good_for_practice(agg: Aggregation, practices: Option<Seq<UserPractice>>, practice_id: Seq<char>) -> bool {
    match practice_type(practices, practice_id) {
        Some(PracticeDataType::Int) | Some(PracticeDataType::Duration) => true,
        Some(PracticeDataType::Time) => agg != Aggregation::Sum,
        _ => agg == Aggregation::Count,
    }
}

/// Whether an aggregation can be chosen for the statistic of a practice.
pub fn is_good_for_practice(agg: &Aggregation, practice_id: &str, practices: Option<&Vec<UserPractice>>) -> (r: bool)
    ensures
        r == good_for_practice(*agg, match practices {
            Some(ps) => Some(ps@),
            None => None,
        }, practice_id@),
{
    let ghost known = match practices {
        Some(ps) => Some(ps@),
        None => None,
    };
    let dt: Option<PracticeDataType> = match practices {
        Some(ps) => {
            proof { lemma_practice_index_range(ps@, practice_id@); }
            let found = find_practice(ps.as_slice(), practice_id);
            match found {
                Some(i) => {
                    assert(ps@.len() == ps.len());
                    Some(ps[i].data_type)
                },
                None => None,
            }
        },
        None => None,
    };
    assert(dt == practice_type(known, practice_id@));
    match dt {
        Some(PracticeDataType::Int) => true,
        Some(PracticeDataType::Duration) => true,
        Some(PracticeDataType::Time) => *agg != Aggregation::Sum,
        _ => *agg == Aggregation::Count,
    }
}

/// All aggregations, in the order they are offered.
pub open spec fn all_aggregations() -> Seq<Aggregation> {
    seq![Aggregation::Count, Aggregation::Sum, Aggregation::Avg, Aggregation::Min, Aggregation::Max]
}

/// The aggregations of `s` that suit a practice, in order.
pub open spec fn suitable(s: Seq<Aggregation>, practices: Option<Seq<UserPractice>>, practice_id: Seq<char>) -> Seq<Aggregation>
    decreases s.len(),
{
    if s.len() == 0 {
        Seq::empty()
    } else if good_for_practice(s.last(), practices, practice_id) {
        suitable(s.drop_last(), practices, practice_id).push(s.last())
    } else {
        suitable(s.drop_last(), practices, practice_id)
    }
}

/// The aggregations offered for a practice, in order.
pub fn aggregations_for_practice(practice_id: &str, practices: Option<&Vec<UserPractice>>) -> (r: Vec<Aggregation>)
    ensures
        r@ == suitable(all_aggregations(), match practices {
            Some(ps) => Some(ps@),
            None => None,
        }, practice_id@),
{
    let all = [Aggregation::Count, Aggregation::Sum, Aggregation::Avg, Aggregation::Min, Aggregation::Max];
    assert(all@ == all_aggregations());
    let ghost ps = match practices {
        Some(ps) => Some(ps@),
        None => None,
    };
    let mut out: Vec<Aggregation> = Vec::new();
    let mut i: usize = 0;
    while i < 5
        invariant
            i <= 5,
            all@ == all_aggregations(),
            ps == (match practices { Some(p) => Some(p@), None => None }),
            out@ == suitable(all@.take(i as int), ps, practice_id@),
        decreases 5 - i,
    {
        let a = all[i];
        assert(all@.take(i + 1).drop_last() =~= all@.take(i as int));
        if is_good_for_practice(&a, practice_id, practices) {
            out.push(a);
        }
        i += 1;
    }
    assert(all@.take(5) =~= all@);
    out
}

impl YatraStatistics {
    /// Adds a default statistic at the end.
    pub fn add_statistic(&mut self)
        ensures
            final(self).visible_to_all == old(self).visible_to_all,
            final(self).statistics@.len() == old(self).statistics@.len() + 1,
            forall|i: int| 0 <= i < old(self).statistics@.len() ==> final(self).statistics@[i] == old(self).statistics@[i],
            final(self).statistics@.last().label@.len() == 0,
            final(self).statistics@.last().practice_id@.len() == 0,
            final(self).statistics@.last().aggregation == Aggregation::Count,
            final(self).statistics@.last().time_range == TimeRange::Last7Days,
    {
        self.statistics.push(YatraStatistic::new_default());
    }

    /// The statistics kept with a yatra when it is saved: only a
    /// configuration with statistics is kept.
    pub fn into_saved(self) -> (r: Option<YatraStatistics>)
        ensures
            r == (if self.statistics@.len() == 0 { None } else { Some(self) }),
    {
        if self.statistics.len() == 0 { None } else { Some(self) }
    }

    /// Removes the statistic at `idx`, if there is one.
    pub fn delete_statistic(&mut self, idx: usize)
        ensures
            final(self).visible_to_all == old(self).visible_to_all,
            idx < old(self).statistics@.len() ==> final(self).statistics@ == old(self).statistics@.remove(idx as int),
            idx >= old(self).statistics@.len() ==> final(self).statistics@ == old(self).statistics@,
    {
        if idx < self.statistics.len() {
            self.statistics.remove(idx);
        }
    }

    /// Shows the statistics to every member when `Everyone` is chosen, else
    /// to administrators only.
    pub fn set_visibility(&mut self, choice: &str)
        ensures
            final(self).visible_to_all == (choice@ == "Everyone"@),
            final(self).statistics@ == old(self).statistics@,
    {
        self.visible_to_all = crate::text::str_equal(choice, "Everyone");
    }

    /// Renames the statistic at `idx`, if there is one.
    pub fn set_label(&mut self, idx: usize, label: String)
        ensures
            final(self).visible_to_all == old(self).visible_to_all,
            final(self).statistics@.len() == old(self).statistics@.len(),
            forall|i: int| 0 <= i < old(self).statistics@.len() && i != idx ==> final(self).statistics@[i] == old(self).statistics@[i],
            idx < old(self).statistics@.len() ==> final(self).statistics@[idx as int] == (YatraStatistic {
                label,
                ..old(self).statistics@[idx as int]
            }),
    {
        if idx < self.statistics.len() {
            let mut stat = self.statistics.remove(idx);
            stat.label = label;
            self.statistics.insert(idx, stat);
        }
    }

    /// Points the statistic at `idx` to another practice; its aggregation
    /// goes back to a count, which suits every practice.
    pub fn set_practice(&mut self, idx: usize, practice_id: String)
        ensures
            final(self).visible_to_all == old(self).visible_to_all,
            final(self).statistics@.len() == old(self).statistics@.len(),
            forall|i: int| 0 <= i < old(self).statistics@.len() && i != idx ==> final(self).statistics@[i] == old(self).statistics@[i],
            idx < old(self).statistics@.len() ==> final(self).statistics@[idx as int] == (YatraStatistic {
                practice_id,
                aggregation: Aggregation::Count,
                ..old(self).statistics@[idx as int]
            }),
    {
        if idx < self.statistics.len() {
            let mut stat = self.statistics.remove(idx);
            stat.practice_id = practice_id;
            stat.aggregation = Aggregation::Count;
            self.statistics.insert(idx, stat);
        }
    }

    /// Sets the aggregation of the statistic at `idx`, if there is one.
    pub fn set_aggregation(&mut self, idx: usize, aggregation: Aggregation)
        ensures
            final(self).visible_to_all == old(self).visible_to_all,
            final(self).statistics@.len() == old(self).statistics@.len(),
            forall|i: int| 0 <= i < old(self).statistics@.len() && i != idx ==> final(self).statistics@[i] == old(self).statistics@[i],
            idx < old(self).statistics@.len() ==> final(self).statistics@[idx as int] == (YatraStatistic {
                aggregation,
                ..old(self).statistics@[idx as int]
            }),
    {
        if idx < self.statistics.len() {
            let mut stat = self.statistics.remove(idx);
            stat.aggregation = aggregation;
            self.statistics.insert(idx, stat);
        }
    }

    /// Sets the span of the statistic at `idx`, if there is one.
    pub fn set_time_range(&mut self, idx: usize, time_range: TimeRange)
        ensures
            final(self).visible_to_all == old(self).visible_to_all,
            final(self).statistics@.len() == old(self).statistics@.len(),
            forall|i: int| 0 <= i < old(self).statistics@.len() && i != idx ==> final(self).statistics@[i] == old(self).statistics@[i],
            idx < old(self).statistics@.len() ==> final(self).statistics@[idx as int] == (YatraStatistic {
                time_range,
                ..old(self).statistics@[idx as int]
            }),
    {
        if idx < self.statistics.len() {
            let mut stat = self.statistics.remove(idx);
            stat.time_range = time_range;
            self.statistics.insert(idx, stat);
        }
    }
}

/// A cell of the heatmap: the stability score when positive (as a count),
/// nothing otherwise.
pub open spec fn heatmap_cell(v: i32) -> Option<PracticeEntryValue> {
    if v > 0 { Some(PracticeEntryValue::Int(v as u16)) } else { None }
}

/// The days of the heatmap shown: all but the last when today is selected,
/// all but the first otherwise.
pub open spec fn heatmap_days(scores: Seq<i32>, today_selected: bool) -> Seq<i32> {
    if today_selected { scores.drop_last() } else { scores.drop_first() }
}

/// The cells of a member's heatmap row (after the member's name).
pub fn heatmap_cells(scores: &[i32], today_selected: bool) -> (r: Vec<Option<PracticeEntryValue>>)
    requires
        scores@.len() > 0,
    ensures
        r@ == heatmap_days(scores@, today_selected).map_values(|v: i32| heatmap_cell(v)),
{
    let from: usize = if today_selected { 0 } else { 1 };
    let to: usize = if today_selected { scores.len() - 1 } else { scores.len() };
    let ghost days = heatmap_days(scores@, today_selected);
    assert(days =~= scores@.subrange(from as int, to as int));
    let mut out: Vec<Option<PracticeEntryValue>> = Vec::new();
    let mut i: usize = from;
    while i < to
        invariant
            from <= i <= to <= scores@.len(),
            days == scores@.subrange(from as int, to as int),
            out@ == days.take(i - from).map_values(|v: i32| heatmap_cell(v)),
        decreases to - i,
    {
        let v = scores[i];
        let cell = if v > 0 { Some(PracticeEntryValue::Int(#[verifier::truncate] (v as u16))) } else { None };
        out.push(cell);
        i += 1;
        assert(out@ =~= days.take(i - from).map_values(|v: i32| heatmap_cell(v)));
    }
    assert(days.take(to - from) =~= days);
    out
}

/// A group of users practising together.
#[derive(Clone, Debug, PartialEq)]
pub struct Yatra {
    pub id: String,
    pub name: String,
    pub show_stability_metrics: bool,
    pub statistics: Option<YatraStatistics>,
}

/// The key under which the selected yatra is remembered.
pub const SELECTED_YATRA_ID_KEY: &'static str = "selected_yatra";

/// `s` without its double quotes.
pub open spec fn without_quotes(s: Seq<char>) -> Seq<char>
    decreases s.len(),
{
    if s.len() == 0 {
        Seq::empty()
    } else if s.last() == '"' {
        without_quotes(s.drop_last())
    } else {
        without_quotes(s.drop_last()).push(s.last())
    }
}

/// `s` without its double quotes (how a remembered id is read back).
pub fn remove_quotes(s: &str) -> (r: String)
    ensures
        r@ == without_quotes(s@),
{
    let v = chars_of(s);
    let mut out: Vec<char> = Vec::new();
    let mut i: usize = 0;
    while i < v.len()
        invariant
            i <= v@.len(),
            v@ == s@,
            out@ == without_quotes(v@.take(i as int)),
        decreases v@.len() - i,
    {
        assert(v@.take(i + 1).drop_last() =~= v@.take(i as int));
        if v[i] != '"' {
            out.push(v[i]);
        }
        i += 1;
    }
    assert(v@.take(v@.len() as int) =~= v@);
    string_of(&out)
}

/// The index of the first yatra with the given id.
pub open spec fn yatra_index_by_id(yatras: Seq<Yatra>, id: Seq<char>) -> Option<int>
    decreases yatras.len(),
{
    if yatras.len() == 0 {
        None
    } else {
        match yatra_index_by_id(yatras.drop_last(), id) {
            Some(i) => Some(i),
            None => if yatras.last().id@ == id { Some(yatras.len() - 1) } else { None },
        }
    }
}

/// The index of the first yatra with the given name.
pub open spec fn yatra_index_by_name(yatras: Seq<Yatra>, name: Seq<char>) -> Option<int>
    decreases yatras.len(),
{
    if yatras.len() == 0 {
        None
    } else {
        match yatra_index_by_name(yatras.drop_last(), name) {
            Some(i) => Some(i),
            None => if yatras.last().name@ == name { Some(yatras.len() - 1) } else { None },
        }
    }
}

proof fn lemma_yatra_index_step(yatras: Seq<Yatra>, key: Seq<char>, by_id: bool, i: int)
    requires
        0 <= i < yatras.len(),
    ensures
        by_id ==> yatra_index_by_id(yatras.take(i + 1), key) == match yatra_index_by_id(yatras.take(i), key) {
            Some(j) => Some(j),
            None => if yatras[i].id@ == key { Some(i) } else { None },
        },
        !by_id ==> yatra_index_by_name(yatras.take(i + 1), key) == match yatra_index_by_name(yatras.take(i), key) {
            Some(j) => Some(j),
            None => if yatras[i].name@ == key { Some(i) } else { None },
        },
{
    assert(yatras.take(i + 1).drop_last() =~= yatras.take(i));
}

/// Finds a yatra by id (`by_id`) or by name.
fn find_yatra(yatras: &[Yatra], key: &str, by_id: bool) -> (r: Option<usize>)
    ensures
        by_id ==> r == match yatra_index_by_id(yatras@, key@) {
            Some(i) => Some(i as usize),
            None => None::<usize>,
        },
        !by_id ==> r == match yatra_index_by_name(yatras@, key@) {
            Some(i) => Some(i as usize),
            None => None::<usize>,
        },
{
    let mut i: usize = 0;
    while i < yatras.len()
        invariant
            i <= yatras@.len(),
            by_id ==> yatra_index_by_id(yatras@.take(i as int), key@) is None,
            !by_id ==> yatra_index_by_name(yatras@.take(i as int), key@) is None,
        decreases yatras@.len() - i,
    {
        proof { lemma_yatra_index_step(yatras@, key@, by_id, i as int); }
        let hit = if by_id { str_equal(yatras[i].id.as_str(), key) } else { str_equal(yatras[i].name.as_str(), key) };
        if hit {
            proof { lemma_yatra_index_settled(yatras@, key@, by_id, i + 1); }
            return Some(i);
        }
        i += 1;
    }
    assert(yatras@.take(yatras@.len() as int) =~= yatras@);
    None
}

proof fn lemma_yatra_index_settled(yatras: Seq<Yatra>, key: Seq<char>, by_id: bool, n: int)
    requires
        0 <= n <= yatras.len(),
        by_id ==> yatra_index_by_id(yatras.take(n), key) is Some,
        !by_id ==> yatra_index_by_name(yatras.take(n), key) is Some,
    ensures
        by_id ==> yatra_index_by_id(yatras, key) == yatra_index_by_id(yatras.take(n), key),
        !by_id ==> yatra_index_by_name(yatras, key) == yatra_index_by_name(yatras.take(n), key),
    decreases yatras.len() - n,
{
    if n < yatras.len() {
        lemma_yatra_index_step(yatras, key, by_id, n);
        lemma_yatra_index_settled(yatras, key, by_id, n + 1);
    } else {
        assert(yatras.take(n) =~= yatras);
    }
}

/// The yatra shown: the remembered one when it is still there, else the
/// first.
pub open spec fn selected_yatra_index(yatras: Seq<Yatra>, stored: Option<Seq<char>>) -> Option<int> {
    let found = match stored {
        Some(s) => yatra_index_by_id(yatras, without_quotes(s)),
        None => None,
    };
    match found {
        Some(i) => Some(i),
        None => if yatras.len() > 0 { Some(0) } else { None },
    }
}

/// The index of the yatra to show, given the id that was remembered.
pub fn select_yatra(yatras: &[Yatra], stored: Option<&str>) -> (r: Option<usize>)
    ensures
        r == match selected_yatra_index(yatras@, match stored {
            Some(s) => Some(s@),
            None => None,
        }) {
            Some(i) => Some(i as usize),
            None => None::<usize>,
        },
{
    let found = match stored {
        Some(s) => {
            let id = remove_quotes(s);
            find_yatra(yatras, id.as_str(), true)
        },
        None => None,
    };
    match found {
        Some(i) => Some(i),
        None => if yatras.len() > 0 { Some(0) } else { None },
    }
}

/// The index of the yatra chosen by name.
pub fn yatra_by_name(yatras: &[Yatra], name: &str) -> (r: Option<usize>)
    ensures
        r == match yatra_index_by_name(yatras@, name@) {
            Some(i) => Some(i as usize),
            None => None::<usize>,
        },
{
    find_yatra(yatras, name, false)
}

/// The name of a new yatra from what was typed: the text without
/// surrounding white space, when some is left.
pub fn new_yatra_name(input: Option<&str>) -> (r: Option<String>)
    ensures
        match input {
            Some(s) => if trim(s@).len() > 0 { r is Some && r->0@ == trim(s@) } else { r is None },
            None => r is None,
        },
{
    match input {
        Some(s) => {
            let t = trim_text(s);
            if t.as_str().is_empty() { None } else { Some(t) }
        },
        None => None,
    }
}

/// The days whose heatmap columns are shown: all but the last when today is
/// selected, all but the first otherwise.
pub open spec fn header_days(days: Seq<String>, today_selected: bool) -> Seq<String> {
    if today_selected {
        if days.len() == 0 { days } else { days.drop_last() }
    } else {
        if days.len() == 0 { days } else { days.drop_first() }
    }
}

/// The column headers of the heatmap's days.
pub fn heatmap_header_days(days: &[String], today_selected: bool) -> (r: Vec<String>)
    ensures
        r@.len() == header_days(days@, today_selected).len(),
        forall|k: int| 0 <= k < r@.len() ==> (#[trigger] r@[k])@ == header_days(days@, today_selected)[k]@,
{
    let from: usize = if today_selected || days.len() == 0 { 0 } else { 1 };
    let to: usize = if today_selected && days.len() > 0 { days.len() - 1 } else { days.len() };
    let ghost hd = header_days(days@, today_selected);
    assert(hd =~= days@.subrange(from as int, to as int));
    let mut out: Vec<String> = Vec::new();
    let mut i: usize = from;
    while i < to
        invariant
            from <= i <= to <= days@.len(),
            hd == days@.subrange(from as int, to as int),
            out@.len() == i - from,
            forall|k: int| 0 <= k < out@.len() ==> (#[trigger] out@[k])@ == hd[k]@,
        decreases to - i,
    {
        out.push(days[i].clone());
        i += 1;
    }
    out
}

/// The colour zones of each day of the stability heatmap.
pub fn heatmap_zones() -> (r: ColourZonesConfig)
    ensures
        r.better_direction == BetterDirection::Higher,
        r.bounds@ == seq![
            Bound { to: Some(PracticeEntryValue::Int(10)), colour: ZoneColour::MutedRed },
            Bound { to: Some(PracticeEntryValue::Int(15)), colour: ZoneColour::Red },
            Bound { to: Some(PracticeEntryValue::Int(30)), colour: ZoneColour::Yellow },
            Bound { to: Some(PracticeEntryValue::Int(40)), colour: ZoneColour::Green },
        ],
        r.no_value_colour == ZoneColour::Neutral,
        r.best_colour == Some(ZoneColour::DarkGreen),
{
    let mut bounds: Vec<Bound> = Vec::new();
    bounds.push(Bound::new(Some(PracticeEntryValue::Int(10)), ZoneColour::MutedRed));
    bounds.push(Bound::new(Some(PracticeEntryValue::Int(15)), ZoneColour::Red));
    bounds.push(Bound::new(Some(PracticeEntryValue::Int(30)), ZoneColour::Yellow));
    bounds.push(Bound::new(Some(PracticeEntryValue::Int(40)), ZoneColour::Green));
    ColourZonesConfig {
        better_direction: BetterDirection::Higher,
        bounds,
        no_value_colour: ZoneColour::Neutral,
        best_colour: Some(ZoneColour::DarkGreen),
    }
}

/// Counting suits every practice: it is always the first aggregation offered.
pub proof fn law_count_is_always_offered(practices: Option<Seq<UserPractice>>, practice_id: Seq<char>)
    ensures
        suitable(all_aggregations(), practices, practice_id).len() >= 1,
        suitable(all_aggregations(), practices, practice_id)[0] == Aggregation::Count,
{
    let all = all_aggregations();
    assert(good_for_practice(Aggregation::Count, practices, practice_id));
    assert(all.take(1).drop_last() =~= Seq::<Aggregation>::empty());
    assert(all.take(1).last() == Aggregation::Count);
    assert(suitable(all.take(1).drop_last(), practices, practice_id) =~= Seq::<Aggregation>::empty());
    assert(suitable(all.take(1), practices, practice_id) =~= seq![Aggregation::Count]);
    lemma_suitable_prefix(all, practices, practice_id, 1);
}

proof fn lemma_suitable_prefix(s: Seq<Aggregation>, practices: Option<Seq<UserPractice>>, practice_id: Seq<char>, n: int)
    requires
        1 <= n <= s.len(),
        suitable(s.take(n), practices, practice_id).len() >= 1,
    ensures
        suitable(s, practices, practice_id).len() >= 1,
        suitable(s, practices, practice_id)[0] == suitable(s.take(n), practices, practice_id)[0],
    decreases s.len() - n,
{
    if n < s.len() {
        assert(s.take(n + 1).drop_last() =~= s.take(n));
        lemma_suitable_prefix(s, practices, practice_id, n + 1);
    } else {
        assert(s.take(n) =~= s);
    }
}

/// The heatmap's header and each of its rows have as many day columns, when
/// the days and the scores cover the same days.
pub proof fn law_heatmap_header_matches_rows(days: Seq<String>, scores: Seq<i32>, today_selected: bool)
    requires
        days.len() == scores.len(),
        scores.len() > 0,
    ensures
        header_days(days, today_selected).len() == heatmap_days(scores, today_selected).len(),
{
}

} // verus!

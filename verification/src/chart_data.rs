//! The values a chart plots for a practice: the y value of each entry, whether
//! times spill over midnight, and the average line.
use vstd::prelude::*;
use crate::model::{
    CobDate, PracticeDataType, PracticeEntryValue, ReportDataEntry, duration_text, push_duration,
    push_time, time_text,
};
use crate::text::{decimal, decimal_string, digit_char, digit_value, digits_value, is_digit, pad2, push_decimal, string_of};

verus! {

/// Hours before this one count as the next day when times spill over midnight.
pub const TIME_CORRECTION_THRESHOLD_HOURS: u8 = 12;

/// The hour of an entry holding a time.
pub open spec fn time_hour(e: ReportDataEntry) -> Option<u8> {
    match e.value {
        Some(PracticeEntryValue::Time { h, .. }) => Some(h),
        _ => None,
    }
}

/// An evening hour: after 18 and before 24.
pub open spec fn is_evening_hour(h: u8) -> bool {
    18 < h < 24
}

/// A morning hour: before 8.
pub open spec fn is_morning_hour(h: u8) -> bool {
    h < 8
}

/// Whether an hour is present and in the evening.
pub open spec fn evening(o: Option<u8>) -> bool {
    o matches Some(h) && is_evening_hour(h)
}

/// Whether an hour is present and in the morning.
pub open spec fn morning(o: Option<u8>) -> bool {
    o matches Some(h) && is_morning_hour(h)
}

/// Whether the times of the entries spill over midnight: some are in the
/// evening, some in the morning, and every morning time is less than twelve
/// hours after every evening time when the morning is taken as the next day.
pub open spec fn times_overflow(data: Seq<ReportDataEntry>) -> bool {
    &&& exists|i: int| 0 <= i < data.len() && evening(#[trigger] time_hour(data[i]))
    &&& exists|i: int| 0 <= i < data.len() && morning(#[trigger] time_hour(data[i]))
    &&& forall|i: int, j: int|
        0 <= i < data.len() && 0 <= j < data.len() && morning(#[trigger] time_hour(data[i]))
            && evening(#[trigger] time_hour(data[j]))
            ==> time_hour(data[i])->0 + 24 - time_hour(data[j])->0 < TIME_CORRECTION_THRESHOLD_HOURS
}

/// Calculates whether time entries spill into the next day: entries cluster
/// in the evening or the morning, and the morning ones are within twelve hours
/// of the evening ones only when moved into the next day.
pub fn overflow_time(report_data: &[ReportDataEntry]) -> (r: bool)
    ensures
        r == times_overflow(report_data@),
{
    let mut min_eve_h: u8 = 12;
    let mut max_morning_h: u8 = 12;
    let mut i: usize = 0;
    while i < report_data.len()
        invariant
            i <= report_data@.len(),
            min_eve_h == 12 <==> !(exists|k: int| 0 <= k < i && evening(#[trigger] time_hour(report_data@[k]))),
            min_eve_h != 12 ==> is_evening_hour(min_eve_h)
                && (exists|k: int| 0 <= k < i && #[trigger] time_hour(report_data@[k]) == Some(min_eve_h))
                && (forall|k: int| 0 <= k < i && evening(#[trigger] time_hour(report_data@[k])) ==> min_eve_h <= time_hour(report_data@[k])->0),
            max_morning_h == 12 <==> !(exists|k: int| 0 <= k < i && morning(#[trigger] time_hour(report_data@[k]))),
            max_morning_h != 12 ==> is_morning_hour(max_morning_h)
                && (exists|k: int| 0 <= k < i && #[trigger] time_hour(report_data@[k]) == Some(max_morning_h))
                && (forall|k: int| 0 <= k < i && morning(#[trigger] time_hour(report_data@[k])) ==> time_hour(report_data@[k])->0 <= max_morning_h),
        decreases report_data@.len() - i,
    {
        match &report_data[i].value {
            Some(PracticeEntryValue::Time { h, m: _ }) => {
                let h = *h;
                if h < 24 && h > 18 && (h < min_eve_h || min_eve_h == 12) {
                    min_eve_h = h;
                }
                if h < 8 && (h > max_morning_h || max_morning_h == 12) {
                    max_morning_h = h;
                }
            },
            _ => {},
        }
        proof {
            assert(time_hour(report_data@[i as int]) == time_hour(report_data[i as int]));
        }
        i += 1;
    }
    let r = min_eve_h != 12 && max_morning_h != 12
        && max_morning_h + 24 - min_eve_h < TIME_CORRECTION_THRESHOLD_HOURS;
    proof {
        let data = report_data@;
        if r {
            assert forall|a: int, b: int|
                0 <= a < data.len() && 0 <= b < data.len() && morning(#[trigger] time_hour(data[a]))
                    && evening(#[trigger] time_hour(data[b]))
                implies time_hour(data[a])->0 + 24 - time_hour(data[b])->0 < TIME_CORRECTION_THRESHOLD_HOURS by {
            }
        } else if min_eve_h != 12 && max_morning_h != 12 {
            let a = choose|k: int| 0 <= k < i && #[trigger] time_hour(report_data@[k]) == Some(max_morning_h);
            let b = choose|k: int| 0 <= k < i && #[trigger] time_hour(report_data@[k]) == Some(min_eve_h);
            assert(time_hour(data[a]) == Some(max_morning_h));
            assert(time_hour(data[b]) == Some(min_eve_h));
        }
    }
    r
}

/// `2020-01-0{day} HH:MM:00`, the timestamp a time of day is plotted at.
pub open spec fn chart_time_text(day: nat, h: u8, m: u8) -> Seq<char> {
    seq!['2', '0', '2', '0', '-', '0', '1', '-', '0', digit_char(day), ' '] + time_text(h, m) + seq![
        ':',
        '0',
        '0',
    ]
}

fn push_chart_time(day: u64, h: u8, m: u8, out: &mut Vec<char>)
    requires
        day < 10,
    ensures
        final(out)@ == old(out)@ + chart_time_text(day as nat, h, m),
{
    out.push('2'); out.push('0'); out.push('2'); out.push('0'); out.push('-');
    out.push('0'); out.push('1'); out.push('-'); out.push('0');
    push_decimal(day, out);
    out.push(' ');
    push_time(h, m, out);
    out.push(':'); out.push('0'); out.push('0');
    assert(out@ =~= old(out)@ + chart_time_text(day as nat, h, m));
}

/// The y value plotted for an entry: the count, the minutes, the time of day
/// (on the second day when `adjust_time` and the hour is before the
/// threshold), or `1` for any recorded boolean or text; empty when there is
/// no value of the practice's kind.
pub open spec fn y_value_text(data_type: PracticeDataType, e: ReportDataEntry, adjust_time: bool) -> Seq<char> {
    match data_type {
        PracticeDataType::Int => match e.value {
            Some(PracticeEntryValue::Int(x)) => decimal(x as nat),
            _ => Seq::empty(),
        },
        PracticeDataType::Time => match e.value {
            Some(PracticeEntryValue::Time { h, m }) => chart_time_text(
                if adjust_time && h < TIME_CORRECTION_THRESHOLD_HOURS { 2 } else { 1 },
                h,
                m,
            ),
            _ => Seq::empty(),
        },
        PracticeDataType::Duration => match e.value {
            Some(PracticeEntryValue::Duration(x)) => decimal(x as nat),
            _ => Seq::empty(),
        },
        PracticeDataType::Text | PracticeDataType::Bool => match e.value {
            Some(_) => seq!['1'],
            None => Seq::empty(),
        },
    }
}

/// The y value plotted for an entry of a practice of kind `data_type`.
pub fn y_value(data_type: &PracticeDataType, entry: &ReportDataEntry, adjust_time: bool) -> (r: String)
    ensures
        r@ == y_value_text(*data_type, *entry, adjust_time),
{
    let mut out: Vec<char> = Vec::new();
    match data_type {
        PracticeDataType::Int => {
            match &entry.value {
                Some(PracticeEntryValue::Int(x)) => push_decimal(*x as u64, &mut out),
                _ => {},
            }
        },
        PracticeDataType::Time => {
            match &entry.value {
                Some(PracticeEntryValue::Time { h, m }) => {
                    let d: u64 = if adjust_time && *h < TIME_CORRECTION_THRESHOLD_HOURS { 2 } else { 1 };
                    push_chart_time(d, *h, *m, &mut out);
                },
                _ => {},
            }
        },
        PracticeDataType::Duration => {
            match &entry.value {
                Some(PracticeEntryValue::Duration(x)) => push_decimal(*x as u64, &mut out),
                _ => {},
            }
        },
        PracticeDataType::Text | PracticeDataType::Bool => {
            if entry.value.is_some() {
                out.push('1');
            }
        },
    }
    assert(out@ =~= y_value_text(*data_type, *entry, adjust_time));
    string_of(&out)
}

/// The average line of a chart: the plotted value and its label.
#[derive(Clone, Debug, PartialEq)]
pub struct GraphAverage {
    pub value: String,
    pub label: String,
}

impl GraphAverage {
    pub fn new(value: String, label: String) -> (r: GraphAverage)
        ensures
            r.value == value,
            r.label == label,
    {
        GraphAverage { value, label }
    }
}

/// The entries an average is taken over: today's entry is left out, as the
/// day may not be complete yet.
pub open spec fn averaged_entries(data: Seq<ReportDataEntry>, today: CobDate) -> Seq<ReportDataEntry> {
    if data.len() > 0 && data.last().cob_date == today {
        data.drop_last()
    } else {
        data
    }
}

/// The sum of the counts of the entries (entries without a count add zero).
pub open spec fn count_total(data: Seq<ReportDataEntry>) -> nat
    decreases data.len(),
{
    if data.len() == 0 {
        0
    } else {
        count_total(data.drop_last()) + match data.last().value {
            Some(PracticeEntryValue::Int(x)) => x as nat,
            _ => 0,
        }
    }
}

/// The sum of the minutes of the entries holding a duration.
pub open spec fn duration_total(data: Seq<ReportDataEntry>) -> nat
    decreases data.len(),
{
    if data.len() == 0 {
        0
    } else {
        duration_total(data.drop_last()) + match data.last().value {
            Some(PracticeEntryValue::Duration(x)) => x as nat,
            _ => 0,
        }
    }
}

/// Minutes since the start of the first day of a time value, counting morning
/// hours as the next day when times spill over midnight; zero for values that
/// are not times.
pub open spec fn time_minutes(v: PracticeEntryValue, overflow: bool) -> nat {
    match v {
        PracticeEntryValue::Time { h, m } => {
            let hh: nat = if overflow && h < 8 { h as nat + 24 } else { h as nat };
            hh * 60 + m as nat
        },
        _ => 0,
    }
}

/// The sum of the minutes of the entries that have a value.
pub open spec fn time_total(data: Seq<ReportDataEntry>, overflow: bool) -> nat
    decreases data.len(),
{
    if data.len() == 0 {
        0
    } else {
        time_total(data.drop_last(), overflow) + match data.last().value {
            Some(v) => time_minutes(v, overflow),
            None => 0,
        }
    }
}

/// The number of entries that have a value.
pub open spec fn valued_count(data: Seq<ReportDataEntry>) -> nat
    decreases data.len(),
{
    if data.len() == 0 {
        0
    } else {
        valued_count(data.drop_last()) + if data.last().value is Some { 1nat } else { 0nat }
    }
}

/// The average of a practice over a report: counts and durations are
/// averaged over all days, times over the days with a value (placed on the
/// second day when they spill over midnight). `None` when no day has a value
/// or the practice is a boolean or text.
pub open spec fn average_spec(
    data_type: PracticeDataType,
    data: Seq<ReportDataEntry>,
    overflow: bool,
    today: CobDate,
) -> Option<(Seq<char>, Seq<char>)> {
    let d = averaged_entries(data, today);
    if valued_count(d) == 0 {
        None
    } else {
        match data_type {
            PracticeDataType::Int => {
                let avg = count_total(d) / d.len();
                Some((decimal(avg), decimal(avg)))
            },
            PracticeDataType::Duration => {
                let avg = duration_total(d) / d.len();
                Some((decimal(avg), duration_text(avg)))
            },
            PracticeDataType::Time => {
                let avg = time_total(d, overflow) / valued_count(d);
                let h0 = (avg / 60) as u8;
                let m = (avg % 60) as u8;
                let spill = overflow && h0 > 23;
                let h = if spill { (h0 - 24) as u8 } else { h0 };
                let day: nat = if spill { 2 } else { 1 };
                Some((chart_time_text(day, h, m), time_text(h, m)))
            },
            _ => None,
        }
    }
}

proof fn lemma_totals_bounded(data: Seq<ReportDataEntry>, overflow: bool)
    ensures
        count_total(data) <= data.len() * 65535,
        duration_total(data) <= data.len() * 65535,
        time_total(data, overflow) <= valued_count(data) * 65535,
        valued_count(data) <= data.len(),
    decreases data.len(),
{
    if data.len() > 0 {
        lemma_totals_bounded(data.drop_last(), overflow);
        match data.last().value {
            Some(v) => {
                assert(time_minutes(v, overflow) <= 65535);
            },
            None => {},
        }
    }
}

proof fn lemma_average_below(total: nat, n: nat)
    requires
        n > 0,
        total <= n * 65535,
    ensures
        total / n <= 65535,
{
    assert(total / n <= 65535) by (nonlinear_arith)
        requires n > 0, total <= n * 65535;
}

/// The average line of a practice over the report entries, leaving out
/// today's entry.
pub fn average_value(
    data_type: &PracticeDataType,
    report_data: &[ReportDataEntry],
    overflow_time: bool,
    today: &CobDate,
) -> (r: Option<GraphAverage>)
    requires
        report_data@.len() < 0x1_0000_0000,
    ensures
        match average_spec(*data_type, report_data@, overflow_time, *today) {
            None => r is None,
            Some((value, label)) => r is Some && r->0.value@ == value && r->0.label@ == label,
        },
{
    let ghost data = report_data@;
    let mut n = report_data.len();
    if n > 0 && report_data[n - 1].cob_date.same_day(today) {
        n = n - 1;
    }
    let ghost d = averaged_entries(data, *today);
    assert(d =~= data.take(n as int));
    let mut ints: u64 = 0;
    let mut durations: u64 = 0;
    let mut times: u64 = 0;
    let mut valued: u64 = 0;
    let mut i: usize = 0;
    while i < n
        invariant
            n <= data.len(),
            data == report_data@,
            data.len() < 0x1_0000_0000,
            i <= n,
            ints == count_total(data.take(i as int)),
            durations == duration_total(data.take(i as int)),
            times == time_total(data.take(i as int), overflow_time),
            valued == valued_count(data.take(i as int)),
        decreases n - i,
    {
        proof {
            assert(data.take(i + 1).drop_last() =~= data.take(i as int));
            lemma_totals_bounded(data.take(i as int), overflow_time);
        }
        match &report_data[i].value {
            Some(PracticeEntryValue::Int(x)) => { ints = ints + *x as u64; },
            Some(PracticeEntryValue::Duration(x)) => { durations = durations + *x as u64; },
            _ => {},
        }
        match &report_data[i].value {
            Some(PracticeEntryValue::Time { h, m }) => {
                let hh: u64 = if overflow_time && *h < 8 { *h as u64 + 24 } else { *h as u64 };
                times = times + hh * 60 + *m as u64;
            },
            _ => {},
        }
        if report_data[i].value.is_some() {
            valued = valued + 1;
        }
        i += 1;
    }
    proof {
        lemma_totals_bounded(d, overflow_time);
    }
    if valued == 0 {
        return None;
    }
    match data_type {
        PracticeDataType::Int => {
            let avg = ints / (n as u64);
            let value = decimal_string(avg);
            let label = decimal_string(avg);
            Some(GraphAverage::new(value, label))
        },
        PracticeDataType::Duration => {
            proof { lemma_average_below(durations as nat, n as nat); }
            let avg = (durations / (n as u64)) as u16;
            let value = decimal_string(avg as u64);
            let mut lv: Vec<char> = Vec::new();
            push_duration(avg as u64, &mut lv);
            let label = string_of(&lv);
            Some(GraphAverage::new(value, label))
        },
        PracticeDataType::Time => {
            let avg_mins = times / valued;
            proof { lemma_average_below(times as nat, valued as nat); }
            let mut h = #[verifier::truncate] ((avg_mins / 60) as u8);
            let mut d: u64 = 1;
            let m = (avg_mins % 60) as u8;
            if overflow_time && h > 23 {
                h = h - 24;
                d = 2;
            }
            let mut vv: Vec<char> = Vec::new();
            push_chart_time(d, h, m, &mut vv);
            let mut lv: Vec<char> = Vec::new();
            push_time(h, m, &mut lv);
            assert(lv@ =~= time_text(h, m));
            Some(GraphAverage::new(string_of(&vv), string_of(&lv)))
        },
        _ => None,
    }
}

/// For a boolean or text practice, an entry is plotted at `1` exactly when it
/// has a value, whatever the value is, and not plotted otherwise.
pub proof fn law_flags_plotted_when_recorded(data_type: PracticeDataType, e: ReportDataEntry, adjust_time: bool)
    requires
        data_type == PracticeDataType::Text || data_type == PracticeDataType::Bool,
    ensures
        e.value is Some ==> y_value_text(data_type, e, adjust_time) == seq!['1'],
        e.value is None ==> y_value_text(data_type, e, adjust_time).len() == 0,
{
}

proof fn lemma_quotient(total: nat, n: nat)
    requires
        n > 0,
    ensures
        (total / n) * n <= total < (total / n + 1) * n,
{
    assert((total / n) * n <= total < (total / n + 1) * n) by (nonlinear_arith)
        requires n > 0;
}

/// The average of a count practice is taken over every averaged day, a day
/// without a count adding zero: it is the whole number `a` with `a` times the
/// number of days at most the sum of the counts and `a + 1` times it above.
pub proof fn law_count_average_over_all_days(data: Seq<ReportDataEntry>, overflow: bool, today: CobDate)
    requires
        valued_count(averaged_entries(data, today)) > 0,
    ensures
        exists|a: nat| {
            &&& #[trigger] average_spec(PracticeDataType::Int, data, overflow, today) == Some((decimal(a), decimal(a)))
            &&& a * averaged_entries(data, today).len() <= count_total(averaged_entries(data, today))
            &&& count_total(averaged_entries(data, today)) < (a + 1) * averaged_entries(data, today).len()
        },
{
    let d = averaged_entries(data, today);
    lemma_totals_bounded(d, overflow);
    let n = d.len();
    lemma_quotient(count_total(d), n);
    let a = count_total(d) / n;
    assert(average_spec(PracticeDataType::Int, data, overflow, today) == Some((decimal(a), decimal(a))));
}

/// The average of a duration practice is taken over every averaged day, a
/// day without a duration adding zero: it is the whole number of minutes `a`
/// with `a` times the number of days at most the sum of the minutes and
/// `a + 1` times it above; its label is that duration.
pub proof fn law_duration_average_over_all_days(data: Seq<ReportDataEntry>, overflow: bool, today: CobDate)
    requires
        valued_count(averaged_entries(data, today)) > 0,
    ensures
        exists|a: nat| {
            &&& #[trigger] average_spec(PracticeDataType::Duration, data, overflow, today) == Some((decimal(a), duration_text(a)))
            &&& a * averaged_entries(data, today).len() <= duration_total(averaged_entries(data, today))
            &&& duration_total(averaged_entries(data, today)) < (a + 1) * averaged_entries(data, today).len()
        },
{
    let d = averaged_entries(data, today);
    lemma_totals_bounded(d, overflow);
    let n = d.len();
    lemma_quotient(duration_total(d), n);
    let a = duration_total(d) / n;
    assert(average_spec(PracticeDataType::Duration, data, overflow, today) == Some((decimal(a), duration_text(a))));
}

/// Today's entry, last in the report, does not move the average: the average
/// with it equals the average of the days before it.
pub proof fn law_today_is_left_out_of_the_average(
    data_type: PracticeDataType,
    data: Seq<ReportDataEntry>,
    e: ReportDataEntry,
    overflow: bool,
    today: CobDate,
)
    requires
        e.cob_date == today,
        data.len() == 0 || data.last().cob_date != today,
    ensures
        average_spec(data_type, data.push(e), overflow, today) == average_spec(data_type, data, overflow, today),
{
    assert(data.push(e).drop_last() =~= data);
}

/// Whether every time among the entries is a time of the clock.
pub open spec fn clock_times(data: Seq<ReportDataEntry>) -> bool {
    forall|i: int| 0 <= i < data.len() ==> ((#[trigger] data[i]).value matches Some(PracticeEntryValue::Time { h, m })
        ==> h < 24 && m < 60)
}

proof fn lemma_time_total_bound(data: Seq<ReportDataEntry>, overflow: bool)
    requires
        clock_times(data),
    ensures
        time_total(data, overflow) <= valued_count(data) * (if overflow { 1919nat } else { 1439nat }),
    decreases data.len(),
{
    if data.len() > 0 {
        let init = data.drop_last();
        assert forall|i: int| 0 <= i < init.len() implies ((#[trigger] init[i]).value matches Some(PracticeEntryValue::Time { h, m })
            ==> h < 24 && m < 60) by {
            assert(init[i] == data[i]);
        }
        lemma_time_total_bound(init, overflow);
        let last = data[data.len() - 1];
        match last.value {
            Some(v) => {
                match v {
                    PracticeEntryValue::Time { h, m } => {
                        assert(h < 24 && m < 60);
                    },
                    _ => {},
                }
            },
            None => {},
        }
    }
}

/// The average of a time practice is taken over the days that have a value:
/// with every time a time of the clock, it is the whole number of minutes `a`
/// with `a` times the number of such days at most the sum of their minutes
/// and `a + 1` times it above, shown as an hour and minute of the clock on
/// the first day, or (when times spill over midnight) on the second day for
/// averages past midnight, `a` being the minutes since the first midnight.
pub proof fn law_time_average_over_valued_days(data: Seq<ReportDataEntry>, overflow: bool, today: CobDate)
    requires
        valued_count(averaged_entries(data, today)) > 0,
        clock_times(averaged_entries(data, today)),
    ensures
        exists|day: nat, h: u8, m: u8| {
            &&& average_spec(PracticeDataType::Time, data, overflow, today) == Some((#[trigger] chart_time_text(day, h, m), time_text(h, m)))
            &&& (day == 1 || (day == 2 && overflow))
            &&& h < 24 && m < 60
            &&& ((day - 1) * 1440 + h * 60 + m) * valued_count(averaged_entries(data, today)) <= time_total(averaged_entries(data, today), overflow)
            &&& time_total(averaged_entries(data, today), overflow) < ((day - 1) * 1440 + h * 60 + m + 1) * valued_count(averaged_entries(data, today))
        },
{
    let d = averaged_entries(data, today);
    let v = valued_count(d);
    let t = time_total(d, overflow);
    lemma_time_total_bound(d, overflow);
    lemma_quotient(t, v);
    let a = t / v;
    let bound: nat = if overflow { 1919nat } else { 1439nat };
    assert(a <= bound) by (nonlinear_arith)
        requires v > 0, t <= v * bound, a == t / v;
    let h0 = (a / 60) as u8;
    let m = (a % 60) as u8;
    assert(a / 60 <= 31);
    assert(h0 == a / 60);
    let spill = overflow && h0 > 23;
    let h = if spill { (h0 - 24) as u8 } else { h0 };
    let day: nat = if spill { 2 } else { 1 };
    assert(average_spec(PracticeDataType::Time, data, overflow, today) == Some((chart_time_text(day, h, m), time_text(h, m))));
    assert((a / 60) * 60 + a % 60 == a);
    assert((day - 1) * 1440 + h * 60 + m == a);
}

proof fn lemma_decimal_reads_back(n: nat)
    ensures
        decimal(n).len() > 0,
        forall|i: int| 0 <= i < decimal(n).len() ==> is_digit(#[trigger] decimal(n)[i]),
        digits_value(decimal(n)) == n,
    decreases n,
{
    let c = digit_char(n % 10);
    assert(is_digit(c) && digit_value(c) == n % 10);
    if n >= 10 {
        lemma_decimal_reads_back(n / 10);
        let p = decimal(n / 10);
        assert(decimal(n) == p.push(c));
        assert(decimal(n).drop_last() =~= p);
        assert(decimal(n).last() == c);
        assert(digits_value(decimal(n)) == digits_value(p) * 10 + digit_value(c));
        assert((n / 10) * 10 + n % 10 == n);
        assert forall|i: int| 0 <= i < decimal(n).len() implies is_digit(#[trigger] decimal(n)[i]) by {
            if i < p.len() {
                assert(decimal(n)[i] == p[i]);
            }
        }
    } else {
        assert(decimal(n) == seq![c]);
        assert(decimal(n).drop_last() =~= Seq::<char>::empty());
        assert(digits_value(decimal(n)) == digits_value(Seq::<char>::empty()) * 10 + digit_value(c));
    }
}

proof fn lemma_pad2_len(n: nat)
    requires
        n < 100,
    ensures
        pad2(n).len() == 2,
{
    if n >= 10 {
        assert(decimal(n / 10) == seq![digit_char(n / 10)]);
        assert(decimal(n).len() == 2);
    } else {
        assert(decimal(n).len() == 1);
    }
}

/// A count or a duration is plotted as its number: the y value is a
/// non-empty run of digits that spells the count or the minutes; an entry
/// without a value of the practice's kind is not plotted.
pub proof fn law_numbers_plotted_as_their_value(data_type: PracticeDataType, e: ReportDataEntry, adjust_time: bool)
    requires
        data_type == PracticeDataType::Int || data_type == PracticeDataType::Duration,
    ensures
        ({
            let y = y_value_text(data_type, e, adjust_time);
            match e.value {
                Some(PracticeEntryValue::Int(x)) if data_type == PracticeDataType::Int => y.len() > 0
                    && (forall|i: int| 0 <= i < y.len() ==> is_digit(#[trigger] y[i])) && digits_value(y) == x,
                Some(PracticeEntryValue::Duration(x)) if data_type == PracticeDataType::Duration => y.len() > 0
                    && (forall|i: int| 0 <= i < y.len() ==> is_digit(#[trigger] y[i])) && digits_value(y) == x,
                _ => y.len() == 0,
            }
        }),
{
    match e.value {
        Some(PracticeEntryValue::Int(x)) => { lemma_decimal_reads_back(x as nat); },
        Some(PracticeEntryValue::Duration(x)) => { lemma_decimal_reads_back(x as nat); },
        _ => {},
    }
}

/// A time of the clock is plotted at its hour and minute, on the second day exactly when
/// times are adjusted and its hour is before the threshold, and on the first
/// day otherwise; an entry without a time is not plotted.
pub proof fn law_times_plotted_at_their_clock_time(e: ReportDataEntry, adjust_time: bool)
    requires
        e.value matches Some(PracticeEntryValue::Time { h, m }) ==> h < 24 && m < 60,
    ensures
        ({
            let y = y_value_text(PracticeDataType::Time, e, adjust_time);
            match e.value {
                Some(PracticeEntryValue::Time { h, m }) => y.len() == 19 && y.subrange(11, 16) == time_text(h, m)
                    && y[9] == (if adjust_time && h < TIME_CORRECTION_THRESHOLD_HOURS { '2' } else { '1' }),
                _ => y.len() == 0,
            }
        }),
{
    match e.value {
        Some(PracticeEntryValue::Time { h, m }) => {
            let d: nat = if adjust_time && h < TIME_CORRECTION_THRESHOLD_HOURS { 2 } else { 1 };
            let y = y_value_text(PracticeDataType::Time, e, adjust_time);
            assert(y == chart_time_text(d, h, m));
            lemma_pad2_len(h as nat);
            lemma_pad2_len(m as nat);
            assert(y.subrange(11, 16) =~= time_text(h, m));
        },
        _ => {},
    }
}

} // verus!

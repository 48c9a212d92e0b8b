//! The data model of practices and their daily entries.
use vstd::prelude::*;
use crate::text::{chars_of, decimal, decimal_string, pad2, push_decimal, push_padded_decimal, string_of};

verus! {

/// The kind of value a practice records.
#[derive(Clone, Copy, Debug, PartialEq, Eq, Structural)]
pub enum PracticeDataType {
    Int,
    Bool,
    Time,
    Text,
    Duration,
}

/// The value recorded for a practice on a day.
#[derive(Clone, Debug, PartialEq)]
pub enum PracticeEntryValue {
    Int(u16),
    Bool(bool),
    Time { h: u8, m: u8 },
    Text(String),
    Duration(u16),
}

/// Position of a value's variant in declaration order, which orders values of
/// different variants.
pub open spec fn variant_rank(v: PracticeEntryValue) -> int {
    match v {
        PracticeEntryValue::Int(_) => 0,
        PracticeEntryValue::Bool(_) => 1,
        PracticeEntryValue::Time { .. } => 2,
        PracticeEntryValue::Text(_) => 3,
        PracticeEntryValue::Duration(_) => 4,
    }
}

/// Lexicographic order on character sequences (which is the byte order of
/// their UTF-8 encodings).
pub open spec fn chars_lt(a: Seq<char>, b: Seq<char>) -> bool
    decreases a.len(),
{
    if a.len() == 0 {
        b.len() > 0
    } else if b.len() == 0 {
        false
    } else if a[0] != b[0] {
        (a[0] as u32) < (b[0] as u32)
    } else {
        chars_lt(a.drop_first(), b.drop_first())
    }
}

/// The order on values: first by variant, then by the fields of the variant.
pub open spec fn value_lt(a: PracticeEntryValue, b: PracticeEntryValue) -> bool {
    if variant_rank(a) != variant_rank(b) {
        variant_rank(a) < variant_rank(b)
    } else {
        match (a, b) {
            (PracticeEntryValue::Int(x), PracticeEntryValue::Int(y)) => x < y,
            (PracticeEntryValue::Bool(x), PracticeEntryValue::Bool(y)) => !x && y,
            (
                PracticeEntryValue::Time { h: h1, m: m1 },
                PracticeEntryValue::Time { h: h2, m: m2 },
            ) => h1 < h2 || (h1 == h2 && m1 < m2),
            (PracticeEntryValue::Text(x), PracticeEntryValue::Text(y)) => chars_lt(x@, y@),
            (PracticeEntryValue::Duration(x), PracticeEntryValue::Duration(y)) => x < y,
            _ => false,
        }
    }
}

/// Whether two values are the same value.
pub open spec fn value_same(a: PracticeEntryValue, b: PracticeEntryValue) -> bool {
    match (a, b) {
        (PracticeEntryValue::Int(x), PracticeEntryValue::Int(y)) => x == y,
        (PracticeEntryValue::Bool(x), PracticeEntryValue::Bool(y)) => x == y,
        (
            PracticeEntryValue::Time { h: h1, m: m1 },
            PracticeEntryValue::Time { h: h2, m: m2 },
        ) => h1 == h2 && m1 == m2,
        (PracticeEntryValue::Text(x), PracticeEntryValue::Text(y)) => x@ == y@,
        (PracticeEntryValue::Duration(x), PracticeEntryValue::Duration(y)) => x == y,
        _ => false,
    }
}

/// Compares two character slices in lexicographic order.
fn chars_less(a: &Vec<char>, b: &Vec<char>) -> (r: bool)
    ensures
        r == chars_lt(a@, b@),
{
    let mut i: usize = 0;
    assert(a@.skip(0) =~= a@);
    assert(b@.skip(0) =~= b@);
    while i < a.len() && i < b.len() && a[i] == b[i]
        invariant
            i <= a.len(),
            i <= b.len(),
            chars_lt(a@, b@) == chars_lt(a@.skip(i as int), b@.skip(i as int)),
        decreases a.len() - i,
    {
        proof {
            assert(a@.skip(i as int).drop_first() =~= a@.skip(i + 1));
            assert(b@.skip(i as int).drop_first() =~= b@.skip(i + 1));
        }
        i += 1;
    }
    if i == a.len() {
        i < b.len()
    } else if i == b.len() {
        false
    } else {
        (a[i] as u32) < (b[i] as u32)
    }
}

impl PracticeEntryValue {
    /// Whether `self` is strictly greater than `other` in the order on values.
    pub fn gt(&self, other: &PracticeEntryValue) -> (r: bool)
        ensures
            r == value_lt(*other, *self),
    {
        match (other, self) {
            (PracticeEntryValue::Int(x), PracticeEntryValue::Int(y)) => *x < *y,
            (PracticeEntryValue::Bool(x), PracticeEntryValue::Bool(y)) => !*x && *y,
            (
                PracticeEntryValue::Time { h: h1, m: m1 },
                PracticeEntryValue::Time { h: h2, m: m2 },
            ) => *h1 < *h2 || (*h1 == *h2 && *m1 < *m2),
            (PracticeEntryValue::Text(x), PracticeEntryValue::Text(y)) => {
                let xc = chars_of(x.as_str());
                let yc = chars_of(y.as_str());
                chars_less(&xc, &yc)
            },
            (PracticeEntryValue::Duration(x), PracticeEntryValue::Duration(y)) => *x < *y,
            _ => variant_rank_of(other) < variant_rank_of(self),
        }
    }

    /// A copy of the value.
    pub fn copy(&self) -> (r: PracticeEntryValue)
        ensures
            r == *self,
    {
        match self {
            PracticeEntryValue::Int(x) => PracticeEntryValue::Int(*x),
            PracticeEntryValue::Bool(x) => PracticeEntryValue::Bool(*x),
            PracticeEntryValue::Time { h, m } => PracticeEntryValue::Time { h: *h, m: *m },
            PracticeEntryValue::Text(s) => PracticeEntryValue::Text(s.clone()),
            PracticeEntryValue::Duration(x) => PracticeEntryValue::Duration(*x),
        }
    }

    /// The count of an `Int` value.
    pub fn as_int(&self) -> (r: Option<u16>)
        ensures
            r == (match *self {
                PracticeEntryValue::Int(x) => Some(x),
                _ => None::<u16>,
            }),
    {
        match self {
            PracticeEntryValue::Int(x) => Some(*x),
            _ => None,
        }
    }

    /// The minutes of a `Duration` value.
    pub fn as_duration_mins(&self) -> (r: Option<u16>)
        ensures
            r == (match *self {
                PracticeEntryValue::Duration(x) => Some(x),
                _ => None::<u16>,
            }),
    {
        match self {
            PracticeEntryValue::Duration(x) => Some(*x),
            _ => None,
        }
    }

    /// A `Time` value as `HH:MM`.
    pub fn as_time_str(&self) -> (r: Option<String>)
        ensures
            match *self {
                PracticeEntryValue::Time { h, m } => r is Some && r->0@ == time_text(h, m),
                _ => r is None,
            },
    {
        match self {
            PracticeEntryValue::Time { h, m } => Some(time_string(*h, *m)),
            _ => None,
        }
    }

    /// A `Duration` value as hours and minutes, such as `1h30m` or `45m`.
    pub fn as_duration_str(&self) -> (r: Option<String>)
        ensures
            match *self {
                PracticeEntryValue::Duration(x) => r is Some && r->0@ == duration_text(x as nat),
                _ => r is None,
            },
    {
        match self {
            PracticeEntryValue::Duration(x) => Some(duration_string(*x)),
            _ => None,
        }
    }

    /// The value as text: counts and minutes in decimal, booleans as
    /// `true`/`false`, times as `HH:MM`, durations as hours and minutes.
    pub fn to_text(&self) -> (r: String)
        ensures
            r@ == value_text(*self),
    {
        match self {
            PracticeEntryValue::Int(x) => decimal_string(*x as u64),
            PracticeEntryValue::Bool(b) => {
                let mut v: Vec<char> = Vec::new();
                if *b {
                    v.push('t'); v.push('r'); v.push('u'); v.push('e');
                } else {
                    v.push('f'); v.push('a'); v.push('l'); v.push('s'); v.push('e');
                }
                assert(v@ == value_text(*self));
                string_of(&v)
            },
            PracticeEntryValue::Time { h, m } => time_string(*h, *m),
            PracticeEntryValue::Text(s) => s.clone(),
            PracticeEntryValue::Duration(x) => duration_string(*x),
        }
    }
}

fn variant_rank_of(v: &PracticeEntryValue) -> (r: u8)
    ensures
        r as int == variant_rank(*v),
{
    match v {
        PracticeEntryValue::Int(_) => 0,
        PracticeEntryValue::Bool(_) => 1,
        PracticeEntryValue::Time { .. } => 2,
        PracticeEntryValue::Text(_) => 3,
        PracticeEntryValue::Duration(_) => 4,
    }
}

/// `HH:MM`, each part zero padded to two digits.
pub open spec fn time_text(h: u8, m: u8) -> Seq<char> {
    pad2(h as nat) + seq![':'] + pad2(m as nat)
}

/// Minutes as `{hours}h{minutes}m`, or `{minutes}m` when under an hour.
pub open spec fn duration_text(mins: nat) -> Seq<char> {
    let h = mins / 60;
    let m = mins % 60;
    if h == 0 {
        decimal(m) + seq!['m']
    } else {
        decimal(h) + seq!['h'] + decimal(m) + seq!['m']
    }
}

/// The text of a value, as `PracticeEntryValue::to_text` gives it.
pub open spec fn value_text(v: PracticeEntryValue) -> Seq<char> {
    match v {
        PracticeEntryValue::Int(x) => decimal(x as nat),
        PracticeEntryValue::Bool(b) => if b { seq!['t', 'r', 'u', 'e'] } else { seq!['f', 'a', 'l', 's', 'e'] },
        PracticeEntryValue::Time { h, m } => time_text(h, m),
        PracticeEntryValue::Text(s) => s@,
        PracticeEntryValue::Duration(x) => duration_text(x as nat),
    }
}

/// Appends `HH:MM` to `out`.
pub fn push_time(h: u8, m: u8, out: &mut Vec<char>)
    ensures
        final(out)@ == old(out)@ + time_text(h, m),
{
    push_padded_decimal(h as u64, 2, out);
    out.push(':');
    push_padded_decimal(m as u64, 2, out);
    assert(out@ =~= old(out)@ + time_text(h, m));
}

/// `HH:MM` as a `String`.
pub fn time_string(h: u8, m: u8) -> (s: String)
    ensures
        s@ == time_text(h, m),
{
    let mut v: Vec<char> = Vec::new();
    push_time(h, m, &mut v);
    assert(v@ =~= time_text(h, m));
    string_of(&v)
}

/// Appends the hours-and-minutes text of `mins` to `out`.
pub fn push_duration(mins: u64, out: &mut Vec<char>)
    ensures
        final(out)@ == old(out)@ + duration_text(mins as nat),
{
    let h = mins / 60;
    let m = mins % 60;
    if h != 0 {
        push_decimal(h, out);
        out.push('h');
    }
    push_decimal(m, out);
    out.push('m');
    assert(out@ =~= old(out)@ + duration_text(mins as nat));
}

/// The hours-and-minutes text of `mins` as a `String`.
pub fn duration_string(mins: u16) -> (s: String)
    ensures
        s@ == duration_text(mins as nat),
{
    let mut v: Vec<char> = Vec::new();
    push_duration(mins as u64, &mut v);
    assert(v@ =~= duration_text(mins as nat));
    string_of(&v)
}

/// A calendar date.
#[derive(Clone, Copy, Debug, PartialEq, Eq, PartialOrd, Ord, Structural)]
pub struct CobDate {
    pub year: i32,
    pub month: u32,
    pub day: u32,
}

/// Whether `y` is a leap year of the proleptic Gregorian calendar.
pub open spec fn is_leap_year(y: int) -> bool {
    y % 4 == 0 && (y % 100 != 0 || y % 400 == 0)
}

/// The number of days of month `m` (1 to 12) in year `y`.
pub open spec fn days_in_month(y: int, m: int) -> int {
    if m == 2 {
        if is_leap_year(y) { 29 } else { 28 }
    } else if m == 4 || m == 6 || m == 9 || m == 11 {
        30
    } else {
        31
    }
}

/// Whether the date exists and lies in the range of years that dates support.
pub open spec fn valid_date(d: CobDate) -> bool {
    &&& -262143 <= d.year <= 262142
    &&& 1 <= d.month <= 12
    &&& 1 <= d.day <= days_in_month(d.year as int, d.month as int)
}

/// Whether `a` comes strictly before `b`.
pub open spec fn date_lt(a: CobDate, b: CobDate) -> bool {
    a.year < b.year || (a.year == b.year && (a.month < b.month || (a.month == b.month && a.day < b.day)))
}

impl CobDate {
    /// Whether the two dates are the same day.
    pub fn same_day(&self, other: &CobDate) -> (r: bool)
        ensures
            r == (*self == *other),
    {
        self.year == other.year && self.month == other.month && self.day == other.day
    }

    /// Whether `self` comes strictly before `other`.
    pub fn before(&self, other: &CobDate) -> (r: bool)
        ensures
            r == date_lt(*self, *other),
    {
        self.year < other.year || (self.year == other.year && (self.month < other.month || (
        self.month == other.month && self.day < other.day)))
    }
}

/// One practice's entry on one day of a report.
#[derive(Clone, Debug, PartialEq)]
pub struct ReportDataEntry {
    pub cob_date: CobDate,
    pub practice: String,
    pub value: Option<PracticeEntryValue>,
}

/// The entries of a report, ordered by date and, within a date, by practice.
#[derive(Clone, Debug, PartialEq)]
pub struct ReportData {
    pub values: Vec<ReportDataEntry>,
}

} // verus!

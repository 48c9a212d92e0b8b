//! The diary of a day: its entries, which required practices are missing,
//! adding minutes to a duration, and checking the columns of an import.
use vstd::prelude::*;
use crate::chart_report::UserPractice;
use crate::charts::texts;
use crate::model::{CobDate, PracticeDataType, PracticeEntryValue, date_lt, value_same, value_text};
use crate::release_channel::{trim, trim_chars};
use crate::text::{chars_of, str_equal, string_of};

verus! {

/// A practice's entry in the diary of a day.
#[derive(Clone, Debug, PartialEq)]
pub struct DiaryEntry {
    pub practice: String,
    pub data_type: PracticeDataType,
    pub dropdown_variants: Option<String>,
    pub value: Option<PracticeEntryValue>,
}

/// The names of the practices that must be filled in every day.
pub open spec fn required_names(practices: Seq<UserPractice>) -> Seq<Seq<char>>
    decreases practices.len(),
{
    if practices.len() == 0 {
        Seq::empty()
    } else if practices.last().is_required == Some(true) {
        required_names(practices.drop_last()).push(practices.last().practice@)
    } else {
        required_names(practices.drop_last())
    }
}

/// The names of the practices that must be filled in every day.
pub fn required_practices(practices: &[UserPractice]) -> (r: Vec<String>)
    ensures
        texts(r@) == required_names(practices@),
{
    let mut out: Vec<String> = Vec::new();
    let mut i: usize = 0;
    while i < practices.len()
        invariant
            i <= practices@.len(),
            texts(out@) == required_names(practices@.take(i as int)),
        decreases practices@.len() - i,
    {
        assert(practices@.take(i + 1).drop_last() =~= practices@.take(i as int));
        if practices[i].is_required == Some(true) {
            let ghost before = texts(out@);
            out.push(practices[i].practice.clone());
            assert(texts(out@) =~= before.push(practices@[i as int].practice@));
        }
        i += 1;
    }
    assert(practices@.take(practices@.len() as int) =~= practices@);
    out
}

/// Whether some required practice has no value among the entries.
pub open spec fn misses_required(required: Seq<Seq<char>>, entries: Seq<DiaryEntry>) -> bool {
    exists|i: int| 0 <= i < entries.len() && required.contains((#[trigger] entries[i]).practice@) && entries[i].value is None
}

/// Whether a past day's diary is incomplete: known only for days before
/// today once the required practices are loaded.
pub fn date_is_incomplete(
    selected: &CobDate,
    today: &CobDate,
    required: Option<&Vec<String>>,
    entries: &[DiaryEntry],
) -> (r: Option<bool>)
    ensures
        match required {
            Some(req) => if date_lt(*selected, *today) {
                r == Some(misses_required(texts(req@), entries@))
            } else {
                r is None
            },
            None => r is None,
        },
{
    if !selected.before(today) {
        return None;
    }
    let req = match required {
        Some(req) => req,
        None => { return None; },
    };
    let mut i: usize = 0;
    while i < entries.len()
        invariant
            i <= entries@.len(),
            required == Some(req),
            date_lt(*selected, *today),
            forall|j: int| 0 <= j < i ==> !(texts(req@).contains((#[trigger] entries@[j]).practice@) && entries@[j].value is None),
        decreases entries@.len() - i,
    {
        if entries[i].value.is_none() {
            let mut k: usize = 0;
            while k < req.len()
                invariant
                    k <= req@.len(),
                    required == Some(req),
                    date_lt(*selected, *today),
                    i < entries@.len(),
                    entries@[i as int].value is None,
                    forall|m: int| 0 <= m < k ==> req@[m]@ != entries@[i as int].practice@,
                decreases req@.len() - k,
            {
                if str_equal(req[k].as_str(), entries[i].practice.as_str()) {
                    assert(texts(req@)[k as int] == entries@[i as int].practice@);
                    assert(texts(req@).contains(entries@[i as int].practice@));
                    return Some(true);
                }
                k += 1;
            }
            assert forall|m: int| 0 <= m < texts(req@).len() implies texts(req@)[m] != entries@[i as int].practice@ by {
                assert(texts(req@)[m] == req@[m]@);
            }
        }
        i += 1;
    }
    Some(false)
}

/// A duration with minutes added; nothing changes (`None`) when no minutes
/// are added or the value is not a duration.
pub fn add_duration(value: &Option<PracticeEntryValue>, add_minutes: u16) -> (r: Option<PracticeEntryValue>)
    requires
        value matches Some(PracticeEntryValue::Duration(m)) ==> m + add_minutes <= u16::MAX,
    ensures
        match *value {
            Some(PracticeEntryValue::Duration(m)) => if add_minutes > 0 {
                r == Some(PracticeEntryValue::Duration((m + add_minutes) as u16))
            } else {
                r is None
            },
            _ => r is None,
        },
{
    match value {
        Some(PracticeEntryValue::Duration(minutes)) => if add_minutes > 0 {
            Some(PracticeEntryValue::Duration(*minutes + add_minutes))
        } else {
            None
        },
        _ => None,
    }
}

/// Whether two optional values are the same.
pub open spec fn same_value(a: Option<PracticeEntryValue>, b: Option<PracticeEntryValue>) -> bool {
    match (a, b) {
        (None, None) => true,
        (Some(x), Some(y)) => value_same(x, y),
        _ => false,
    }
}

/// Whether an edited value differs from the saved one (only then is it saved).
pub fn value_changed(old: &Option<PracticeEntryValue>, new: &Option<PracticeEntryValue>) -> (r: bool)
    ensures
        r == !same_value(*old, *new),
{
    match (old, new) {
        (None, None) => false,
        (Some(x), Some(y)) => {
            let same = match (x, y) {
                (PracticeEntryValue::Int(a), PracticeEntryValue::Int(b)) => *a == *b,
                (PracticeEntryValue::Bool(a), PracticeEntryValue::Bool(b)) => *a == *b,
                (PracticeEntryValue::Time { h: h1, m: m1 }, PracticeEntryValue::Time { h: h2, m: m2 }) => *h1 == *h2 && *m1 == *m2,
                (PracticeEntryValue::Text(a), PracticeEntryValue::Text(b)) => str_equal(a.as_str(), b.as_str()),
                (PracticeEntryValue::Duration(a), PracticeEntryValue::Duration(b)) => *a == *b,
                _ => false,
            };
            !same
        },
        _ => true,
    }
}

/// An edited value counts as unchanged only when it is the saved value: equal
/// values are the same, and values judged the same are equal (texts by their
/// characters). So an edit of any field of a value, such as the minutes of a
/// time, is a change.
pub proof fn law_unchanged_only_when_equal(a: Option<PracticeEntryValue>, b: Option<PracticeEntryValue>)
    ensures
        a == b ==> same_value(a, b),
        same_value(a, b) ==> a == b || (a matches Some(PracticeEntryValue::Text(x))
            && b matches Some(PracticeEntryValue::Text(y)) && x@ == y@),
{
    match (a, b) {
        (Some(x), Some(y)) => {
            match (x, y) {
                (PracticeEntryValue::Time { h: h1, m: m1 }, PracticeEntryValue::Time { h: h2, m: m2 }) => {
                    if same_value(a, b) {
                        assert(h1 == h2 && m1 == m2);
                    }
                },
                _ => {},
            }
        },
        _ => {},
    }
}

/// The pieces of `s` between commas (one empty piece for an empty text).
pub open spec fn comma_pieces(s: Seq<char>) -> Seq<Seq<char>>
    decreases s.len(),
{
    if s.len() == 0 {
        seq![Seq::<char>::empty()]
    } else {
        let p = comma_pieces(s.drop_last());
        if s.last() == ',' {
            p.push(Seq::<char>::empty())
        } else {
            p.update(p.len() - 1, p.last().push(s.last()))
        }
    }
}

proof fn lemma_comma_pieces_len(s: Seq<char>)
    ensures
        comma_pieces(s).len() >= 1,
    decreases s.len(),
{
    if s.len() > 0 {
        lemma_comma_pieces_len(s.drop_last());
    }
}

/// The choices of pieces: each without surrounding white space, the empty
/// ones left out.
pub open spec fn choices_of(pieces: Seq<Seq<char>>) -> Seq<Seq<char>>
    decreases pieces.len(),
{
    if pieces.len() == 0 {
        Seq::empty()
    } else if trim(pieces.last()).len() > 0 {
        choices_of(pieces.drop_last()).push(trim(pieces.last()))
    } else {
        choices_of(pieces.drop_last())
    }
}

/// The choices a dropdown practice offers, from its comma-separated variants.
pub open spec fn variant_choices(variants: Seq<char>) -> Seq<Seq<char>> {
    choices_of(comma_pieces(variants))
}

/// A choice of a dropdown and whether it is the value held.
pub struct DropdownChoice {
    pub text: String,
    pub selected: bool,
}

/// The options of a dropdown: its choices, and whether the blank option is
/// the one selected.
pub struct DropdownOptions {
    pub choices: Vec<DropdownChoice>,
    pub blank_selected: bool,
}

/// Whether a choice shows the value held.
pub open spec fn shows_value(value: Option<PracticeEntryValue>, text: Seq<char>) -> bool {
    match value {
        Some(v) => value_text(v) == text,
        None => false,
    }
}

/// Adds the choice of a piece (unless it is blank) to `out`, noting in
/// `any_selected` whether it shows the value.
fn push_choice(out: &mut Vec<DropdownChoice>, any_selected: &mut bool, piece: &Vec<char>, shown: &Option<String>)
    ensures
        trim(piece@).len() > 0 ==> ({
            &&& final(out)@.len() == old(out)@.len() + 1
            &&& final(out)@.drop_last() == old(out)@
            &&& final(out)@.last().text@ == trim(piece@)
            &&& final(out)@.last().selected == (shown is Some && shown->0@ == trim(piece@))
            &&& *final(any_selected) == (*old(any_selected) || final(out)@.last().selected)
        }),
        trim(piece@).len() == 0 ==> final(out)@ == old(out)@ && *final(any_selected) == *old(any_selected),
{
    let t = trim_chars(piece);
    if t.len() > 0 {
        let text = string_of(&t);
        let selected = match shown {
            Some(x) => str_equal(x.as_str(), text.as_str()),
            None => false,
        };
        out.push(DropdownChoice { text, selected });
        if selected {
            *any_selected = true;
        }
        assert(out@.drop_last() =~= old(out)@);
    }
}

/// The options of a dropdown practice with the given variants and value:
/// each choice is selected when it is the value's text, and the blank
/// option when there is no value or no choice is selected.
pub fn dropdown_options(variants: &str, value: Option<&PracticeEntryValue>) -> (r: DropdownOptions)
    ensures
        ({
            let cs = variant_choices(variants@);
            let v = match value {
                Some(x) => Some(*x),
                None => None,
            };
            &&& r.choices@.len() == cs.len()
            &&& forall|k: int| 0 <= k < cs.len() ==> (#[trigger] r.choices@[k]).text@ == cs[k]
                && r.choices@[k].selected == shows_value(v, cs[k])
            &&& r.blank_selected == (v is None || forall|k: int| 0 <= k < cs.len() ==> !shows_value(v, #[trigger] cs[k]))
        }),
{
    let ghost v = match value {
        Some(x) => Some(*x),
        None => None,
    };
    let shown: Option<String> = match value {
        Some(x) => Some(x.to_text()),
        None => None,
    };
    let chars = chars_of(variants);
    let mut out: Vec<DropdownChoice> = Vec::new();
    let mut any_selected = false;
    let mut cur: Vec<char> = Vec::new();
    let mut i: usize = 0;
    assert(chars@.take(0) =~= Seq::<char>::empty());
    while i < chars.len()
        invariant
            chars@ == variants@,
            i <= chars@.len(),
            ({
                let p = comma_pieces(chars@.take(i as int));
                &&& p.len() >= 1
                &&& cur@ == p.last()
                &&& out@.len() == choices_of(p.drop_last()).len()
                &&& forall|k: int| 0 <= k < out@.len() ==> (#[trigger] out@[k]).text@ == choices_of(p.drop_last())[k]
                    && out@[k].selected == shows_value(v, choices_of(p.drop_last())[k])
                &&& any_selected == exists|k: int| 0 <= k < out@.len() && #[trigger] out@[k].selected
            }),
            match shown {
                Some(t) => v is Some && t@ == value_text(v->0),
                None => v is None,
            },
        decreases chars@.len() - i,
    {
        let ghost p = comma_pieces(chars@.take(i as int));
        proof { assert(chars@.take(i + 1).drop_last() =~= chars@.take(i as int)); }
        if chars[i] == ',' {
            let ghost before = out@;
            push_choice(&mut out, &mut any_selected, &cur, &shown);
            proof {
                lemma_choice_step(p, before, out@, any_selected, v);
                assert(comma_pieces(chars@.take(i + 1)) == p.push(Seq::<char>::empty()));
                assert(p.push(Seq::<char>::empty()).drop_last() =~= p);
            }
            cur = Vec::new();
        } else {
            cur.push(chars[i]);
            proof {
                let q = comma_pieces(chars@.take(i + 1));
                assert(q == p.update(p.len() - 1, p.last().push(chars@[i as int])));
                assert(q.drop_last() =~= p.drop_last());
            }
        }
        i += 1;
    }
    let ghost p = comma_pieces(chars@.take(i as int));
    let ghost before = out@;
    push_choice(&mut out, &mut any_selected, &cur, &shown);
    proof {
        lemma_choice_step(p, before, out@, any_selected, v);
        assert(chars@.take(i as int) =~= chars@);
        assert(p == comma_pieces(variants@));
        let cs = variant_choices(variants@);
        if !any_selected {
            assert forall|k: int| 0 <= k < cs.len() implies !shows_value(v, #[trigger] cs[k]) by {
                assert(!out@[k].selected);
            }
        } else {
            let k = choose|k: int| 0 <= k < out@.len() && #[trigger] out@[k].selected;
            assert(shows_value(v, cs[k]));
        }
    }
    let blank_selected = shown.is_none() || !any_selected;
    DropdownOptions { choices: out, blank_selected }
}

proof fn lemma_choice_step(p: Seq<Seq<char>>, before: Seq<DropdownChoice>, after: Seq<DropdownChoice>, any: bool, v: Option<PracticeEntryValue>)
    requires
        p.len() >= 1,
        before.len() == choices_of(p.drop_last()).len(),
        forall|k: int| 0 <= k < before.len() ==> (#[trigger] before[k]).text@ == choices_of(p.drop_last())[k]
            && before[k].selected == shows_value(v, choices_of(p.drop_last())[k]),
        trim(p.last()).len() > 0 ==> ({
            &&& after.len() == before.len() + 1
            &&& after.drop_last() == before
            &&& after.last().text@ == trim(p.last())
            &&& after.last().selected == shows_value(v, trim(p.last()))
            &&& any == ((exists|k: int| 0 <= k < before.len() && #[trigger] before[k].selected) || after.last().selected)
        }),
        trim(p.last()).len() == 0 ==> after == before && any == exists|k: int| 0 <= k < before.len() && #[trigger] before[k].selected,
    ensures
        after.len() == choices_of(p).len(),
        forall|k: int| 0 <= k < after.len() ==> (#[trigger] after[k]).text@ == choices_of(p)[k]
            && after[k].selected == shows_value(v, choices_of(p)[k]),
        any == exists|k: int| 0 <= k < after.len() && #[trigger] after[k].selected,
{
    if trim(p.last()).len() > 0 {
        assert(choices_of(p) == choices_of(p.drop_last()).push(trim(p.last())));
        assert forall|k: int| 0 <= k < before.len() implies after[k] == #[trigger] before[k] by {
            assert(after.drop_last()[k] == after[k]);
        }
        assert forall|k: int| 0 <= k < after.len() implies (#[trigger] after[k]).text@ == choices_of(p)[k]
            && after[k].selected == shows_value(v, choices_of(p)[k]) by {
            if k < before.len() {
                assert(after[k] == before[k]);
            }
        }
        if any {
            if !after.last().selected {
                let k = choose|k: int| 0 <= k < before.len() && #[trigger] before[k].selected;
                assert(after[k].selected);
            }
        }
        if exists|k: int| 0 <= k < after.len() && #[trigger] after[k].selected {
            let k = choose|k: int| 0 <= k < after.len() && #[trigger] after[k].selected;
            if k < before.len() {
                assert(before[k].selected);
            }
        }
    }
}

/// Whether an entry is marked as missing: it has no value, the diary has
/// loaded, the day is past, and its practice is required.
pub open spec fn marked_incomplete(
    entry: DiaryEntry,
    loading: bool,
    selected: CobDate,
    today: CobDate,
    required: Option<Seq<Seq<char>>>,
) -> bool {
    entry.value is None && !loading && date_lt(selected, today) && match required {
        Some(req) => req.contains(entry.practice@),
        None => false,
    }
}

/// A past day is shown as incomplete exactly when one of its entries, once
/// loaded, is marked as missing.
pub proof fn law_incomplete_day_has_a_marked_entry(
    selected: CobDate,
    today: CobDate,
    required: Seq<Seq<char>>,
    entries: Seq<DiaryEntry>,
)
    requires
        date_lt(selected, today),
    ensures
        misses_required(required, entries) <==> exists|i: int|
            0 <= i < entries.len() && #[trigger] marked_incomplete(entries[i], false, selected, today, Some(required)),
{
    if misses_required(required, entries) {
        let i = choose|i: int| 0 <= i < entries.len() && required.contains((#[trigger] entries[i]).practice@) && entries[i].value is None;
        assert(marked_incomplete(entries[i], false, selected, today, Some(required)));
    }
    if exists|i: int| 0 <= i < entries.len() && #[trigger] marked_incomplete(entries[i], false, selected, today, Some(required)) {
        let i = choose|i: int| 0 <= i < entries.len() && #[trigger] marked_incomplete(entries[i], false, selected, today, Some(required));
        assert(required.contains(entries[i].practice@) && entries[i].value is None);
    }
}

/// Whether a past day's entry is marked as missing: it has no value, the
/// diary has loaded, and its practice is required.
pub fn entry_marked_incomplete(
    entry: &DiaryEntry,
    loading: bool,
    selected: &CobDate,
    today: &CobDate,
    required: Option<&Vec<String>>,
) -> (r: bool)
    ensures
        r == marked_incomplete(*entry, loading, *selected, *today, match required {
            Some(req) => Some(texts(req@)),
            None => None,
        }),
{
    if entry.value.is_some() || loading || !selected.before(today) {
        return false;
    }
    match required {
        Some(req) => {
            let mut k: usize = 0;
            while k < req.len()
                invariant
                    k <= req@.len(),
                    required == Some(req),
                    entry.value is None && !loading && date_lt(*selected, *today),
                    forall|m: int| 0 <= m < k ==> req@[m]@ != entry.practice@,
                decreases req@.len() - k,
            {
                if str_equal(req[k].as_str(), entry.practice.as_str()) {
                    assert(texts(req@)[k as int] == entry.practice@);
                    return true;
                }
                k += 1;
            }
            assert forall|m: int| 0 <= m < texts(req@).len() implies texts(req@)[m] != entry.practice@ by {
                assert(texts(req@)[m] == req@[m]@);
            }
            false
        },
        None => false,
    }
}

/// A problem with a column of an import.
#[derive(Clone, Debug, PartialEq)]
pub enum ImportIssue {
    /// The column's practice is saved with another kind.
    WrongType { practice: String, saved: PracticeDataType, selected: PracticeDataType },
    /// No practice has the column's name.
    NoSuchPractice { practice: String },
}

/// A column of an import: its header and the kind chosen for it, if any.
pub struct ImportColumn {
    pub header: String,
    pub data_type: Option<PracticeDataType>,
}

/// The kind a practice of the given name is saved with (the last practice
/// of that name decides).
pub open spec fn saved_type(practices: Seq<UserPractice>, name: Seq<char>) -> Option<PracticeDataType>
    decreases practices.len(),
{
    if practices.len() == 0 {
        None
    } else if practices.last().practice@ == name {
        Some(practices.last().data_type)
    } else {
        saved_type(practices.drop_last(), name)
    }
}

/// Whether an issue is the one found for a column.
pub open spec fn issue_for(column_name: Seq<char>, selected: PracticeDataType, practices: Seq<UserPractice>, issue: ImportIssue) -> bool {
    match saved_type(practices, column_name) {
        Some(saved) => issue matches ImportIssue::WrongType { practice, saved: s, selected: t }
            && practice@ == column_name && s == saved && t == selected,
        None => issue matches ImportIssue::NoSuchPractice { practice } && practice@ == column_name,
    }
}

/// Whether a column with a chosen kind has an issue.
pub open spec fn has_issue(column: ImportColumn, practices: Seq<UserPractice>) -> bool {
    match column.data_type {
        Some(t) => match saved_type(practices, column.header@) {
            Some(saved) => saved != t,
            None => true,
        },
        None => false,
    }
}

/// The columns that have an issue, in order.
pub open spec fn columns_with_issues(columns: Seq<ImportColumn>, practices: Seq<UserPractice>) -> Seq<ImportColumn>
    decreases columns.len(),
{
    if columns.len() == 0 {
        Seq::empty()
    } else if has_issue(columns.last(), practices) {
        columns_with_issues(columns.drop_last(), practices).push(columns.last())
    } else {
        columns_with_issues(columns.drop_last(), practices)
    }
}

fn find_saved_type(practices: &[UserPractice], name: &str) -> (r: Option<PracticeDataType>)
    ensures
        r == saved_type(practices@, name@),
{
    let mut i = practices.len();
    assert(practices@.take(i as int) =~= practices@);
    while i > 0
        invariant
            i <= practices@.len(),
            saved_type(practices@, name@) == saved_type(practices@.take(i as int), name@),
        decreases i,
    {
        assert(practices@.take(i as int).drop_last() =~= practices@.take(i - 1));
        if str_equal(practices[i - 1].practice.as_str(), name) {
            return Some(practices[i - 1].data_type);
        }
        i -= 1;
    }
    None
}

/// The issues of the columns of an import whose kind was chosen: a kind
/// other than the practice's saved kind, or no practice of that name. The
/// import goes ahead only when there is none.
pub fn import_column_issues(columns: &[ImportColumn], practices: &[UserPractice]) -> (r: Vec<ImportIssue>)
    ensures
        r@.len() == columns_with_issues(columns@, practices@).len(),
        forall|k: int| 0 <= k < r@.len() ==> issue_for(
            columns_with_issues(columns@, practices@)[k].header@,
            columns_with_issues(columns@, practices@)[k].data_type->0,
            practices@,
            #[trigger] r@[k],
        ),
{
    assert(practices@.take(practices@.len() as int) =~= practices@);
    let mut out: Vec<ImportIssue> = Vec::new();
    let mut i: usize = 0;
    while i < columns.len()
        invariant
            i <= columns@.len(),
            out@.len() == columns_with_issues(columns@.take(i as int), practices@).len(),
            forall|k: int| 0 <= k < out@.len() ==> issue_for(
                columns_with_issues(columns@.take(i as int), practices@)[k].header@,
                columns_with_issues(columns@.take(i as int), practices@)[k].data_type->0,
                practices@,
                #[trigger] out@[k],
            ),
            forall|k: int| 0 <= k < columns_with_issues(columns@.take(i as int), practices@).len()
                ==> (#[trigger] columns_with_issues(columns@.take(i as int), practices@)[k]).data_type is Some,
        decreases columns@.len() - i,
    {
        assert(columns@.take(i + 1).drop_last() =~= columns@.take(i as int));
        let c = &columns[i];
        match c.data_type {
            Some(t) => {
                match find_saved_type(practices, c.header.as_str()) {
                    Some(saved) => {
                        if saved != t {
                            out.push(ImportIssue::WrongType { practice: c.header.clone(), saved, selected: t });
                        }
                    },
                    None => {
                        out.push(ImportIssue::NoSuchPractice { practice: c.header.clone() });
                    },
                }
            },
            None => {},
        }
        i += 1;
    }
    assert(columns@.take(columns@.len() as int) =~= columns@);
    out
}

} // verus!

//! Exporting report data as CSV: a header of practices, then one row per day.
use vstd::prelude::*;
use crate::dates::iso_date_text;
use crate::model::{ReportData, ReportDataEntry, valid_date, value_text};

verus! {

/// Whether a field has to be quoted: it holds a comma, a quote, or a line break.
pub open spec fn needs_quotes(f: Seq<char>) -> bool {
    exists|i: int| 0 <= i < f.len() && (f[i] == ',' || f[i] == '"' || f[i] == '\r' || f[i] == '\n')
}

/// `f` with each quote doubled.
pub open spec fn double_quotes(f: Seq<char>) -> Seq<char>
    decreases f.len(),
{
    if f.len() == 0 {
        Seq::empty()
    } else {
        double_quotes(f.drop_last()) + if f.last() == '"' { seq!['"', '"'] } else { seq![f.last()] }
    }
}

/// A field as written: quoted (with doubled quotes) when it has to be.
pub open spec fn field_text(f: Seq<char>) -> Seq<char> {
    if needs_quotes(f) {
        seq!['"'] + double_quotes(f) + seq!['"']
    } else {
        f
    }
}

/// The fields, as written, separated by commas.
pub open spec fn joined_fields(fields: Seq<Seq<char>>) -> Seq<char>
    decreases fields.len(),
{
    if fields.len() == 0 {
        Seq::empty()
    } else if fields.len() == 1 {
        field_text(fields[0])
    } else {
        joined_fields(fields.drop_last()) + seq![','] + field_text(fields.last())
    }
}

/// A record as written, ended by a line feed; a record with nothing to write
/// is written as an empty quoted field.
pub open spec fn record_text(fields: Seq<Seq<char>>) -> Seq<char> {
    if fields.len() == 0 || (fields.len() == 1 && fields[0].len() == 0) {
        seq!['"', '"', '\n']
    } else {
        joined_fields(fields) + seq!['\n']
    }
}

/// The records as written, one after the other.
pub open spec fn csv_text(records: Seq<Seq<Seq<char>>>) -> Seq<char>
    decreases records.len(),
{
    if records.len() == 0 {
        Seq::empty()
    } else {
        csv_text(records.drop_last()) + record_text(records.last())
    }
}

/// Whether every record has as many fields as the first.
pub open spec fn same_field_counts(records: Seq<Seq<Seq<char>>>) -> bool {
    forall|i: int| 0 <= i < records.len() ==> (#[trigger] records[i]).len() == records[0].len()
}

/// The texts of records of strings.
pub open spec fn record_texts(records: Seq<Vec<String>>) -> Seq<Seq<Seq<char>>> {
    records.map_values(|r: Vec<String>| r@.map_values(|s: String| s@))
}

/// Writes records with `csv::Writer` (comma separated, quoting only where
/// needed, records of equal length) into a string. The writer refuses a
/// record whose length differs from the first record's, and then nothing is
/// returned.
#[verifier::external_body]
fn write_csv(records: &Vec<Vec<String>>) -> (r: Option<String>)
    ensures
        r is Some <==> same_field_counts(record_texts(records@)),
        r matches Some(s) ==> s@ == csv_text(record_texts(records@)),
{
    let mut wrt = csv::Writer::from_writer(vec![]);
    for record in records {
        if wrt.write_record(record).is_err() {
            return None;
        }
    }
    String::from_utf8(wrt.into_inner().ok()?).ok()
}

/// The text of an entry's value; empty when there is none.
pub open spec fn entry_text(e: ReportDataEntry) -> Seq<char> {
    match e.value {
        Some(v) => value_text(v),
        None => Seq::empty(),
    }
}

/// One row per run of consecutive entries of the same day: the day, then
/// the text of each entry of the run.
pub open spec fn day_rows(entries: Seq<ReportDataEntry>) -> Seq<Seq<Seq<char>>>
    decreases entries.len(),
{
    if entries.len() == 0 {
        Seq::empty()
    } else {
        let rest = day_rows(entries.drop_last());
        let e = entries.last();
        if entries.len() >= 2 && entries[entries.len() - 2].cob_date == e.cob_date {
            rest.update(rest.len() - 1, rest.last().push(entry_text(e)))
        } else {
            rest.push(seq![iso_date_text(e.cob_date), entry_text(e)])
        }
    }
}

/// The number of entries of the first day (the first run of entries of the
/// same day).
pub open spec fn first_run_len(entries: Seq<ReportDataEntry>) -> int
    decreases entries.len(),
{
    if entries.len() == 0 {
        0
    } else {
        let k = first_run_len(entries.drop_last());
        if k == entries.len() - 1 && (entries.len() == 1 || entries.last().cob_date == entries[entries.len() - 2].cob_date) {
            entries.len() as int
        } else {
            k
        }
    }
}

/// The practices of the first day's entries.
pub open spec fn first_day_practices(entries: Seq<ReportDataEntry>) -> Seq<Seq<char>> {
    entries.take(first_run_len(entries)).map_values(|e: ReportDataEntry| e.practice@)
}

/// The records exported: a header (the date label and the practices of the
/// first day) and the rows of every day but the last; nothing when there are
/// fewer than two days.
pub open spec fn export_records(entries: Seq<ReportDataEntry>, date_label: Seq<char>) -> Seq<Seq<Seq<char>>> {
    let rows = day_rows(entries);
    if rows.len() >= 2 {
        seq![seq![date_label] + first_day_practices(entries)] + rows.drop_last()
    } else {
        Seq::empty()
    }
}

/// Whether all entries have existing dates.
pub open spec fn all_dates_valid(entries: Seq<ReportDataEntry>) -> bool {
    forall|i: int| 0 <= i < entries.len() ==> valid_date((#[trigger] entries[i]).cob_date)
}

fn entry_string(e: &ReportDataEntry) -> (r: String)
    ensures
        r@ == entry_text(*e),
{
    match &e.value {
        Some(v) => v.to_text(),
        None => String::new(),
    }
}

/// The CSV export of report data: a header row of the date label and the
/// first day's practices, then one row per day holding the date and each
/// value; the last day's row is not written. `None` when the days have
/// different numbers of entries.
pub fn to_csv_str(data: &ReportData, date_label: &str) -> (r: Option<String>)
    requires
        all_dates_valid(data.values@),
    ensures
        r is Some <==> same_field_counts(export_records(data.values@, date_label@)),
        r matches Some(s) ==> s@ == csv_text(export_records(data.values@, date_label@)),
{
    let entries = &data.values;
    let ghost es = entries@;
    let mut records: Vec<Vec<String>> = Vec::new();
    let mut practices: Vec<String> = Vec::new();
    practices.push(date_label.to_owned());
    let mut practices_done = false;
    let mut row: Vec<String> = Vec::new();
    let mut i: usize = 0;
    while i < entries.len()
        invariant
            es == entries@,
            all_dates_valid(es),
            i <= es.len(),
            practices_done == (day_rows(es.take(i as int)).len() >= 2),
            !practices_done ==> record_texts(records@).len() == 0,
            !practices_done ==> texts_of(practices@) == seq![date_label@] + first_day_practices(es.take(i as int)),
            practices_done ==> record_texts(records@) == export_records(es.take(i as int), date_label@),
            i > 0 ==> texts_of(row@) == day_rows(es.take(i as int)).last(),
            i > 0 ==> day_rows(es.take(i as int)).len() >= 1,
            i == 0 ==> row@.len() == 0,
            !practices_done && i > 0 ==> first_run_len(es.take(i as int)) == i,
        decreases es.len() - i,
    {
        let e = &entries[i];
        let entry_str = entry_string(e);
        proof {
            lemma_rows_step(es, i as int);
            lemma_first_run(es, i + 1);
            if i > 0 {
                lemma_first_run(es, i as int);
                lemma_rows_step(es, i - 1);
            }
            lemma_first_day_prefix(es, i + 1, first_run_len(es.take(i + 1)));
            if i > 0 {
                lemma_first_day_prefix(es, i as int, first_run_len(es.take(i as int)));
            }
        }
        if i == 0 {
            let d = e.cob_date.to_iso_string();
            row.push(d);
            row.push(entry_str);
            practices.push(e.practice.clone());
            proof {
                assert(texts_of(row@) =~= seq![iso_date_text(e.cob_date), entry_text(*e)]);
                assert(texts_of(practices@) =~= seq![date_label@] + first_day_practices(es.take(1)));
            }
        } else if entries[i - 1].cob_date.same_day(&e.cob_date) {
            let ghost old_row = texts_of(row@);
            row.push(entry_str);
            assert(texts_of(row@) =~= old_row.push(entry_text(*e)));
            if !practices_done {
                let ghost old_p = texts_of(practices@);
                practices.push(e.practice.clone());
                assert(texts_of(practices@) =~= old_p.push(e.practice@));
                assert(es.take(i + 1) =~= es.take(i as int).push(es[i as int]));
                assert(es.take(i + 1).take(i + 1) =~= es.take(i + 1));
                assert(es.take(i as int).take(i as int) =~= es.take(i as int));
                assert(texts_of(practices@) =~= seq![date_label@] + first_day_practices(es.take(i + 1)));
            }
        } else {
            let ghost was_done = practices_done;
            let ghost rec0 = record_texts(records@);
            let ghost hdr = texts_of(practices@);
            if !practices_done {
                practices_done = true;
                let header = practices;
                practices = Vec::new();
                records.push(header);
                assert(record_texts(records@) =~= rec0.push(hdr));
            }
            let ghost rec1 = record_texts(records@);
            let d = e.cob_date.to_iso_string();
            let old_row = row;
            let ghost row_texts = texts_of(old_row@);
            records.push(old_row);
            assert(record_texts(records@) =~= rec1.push(row_texts));
            row = Vec::new();
            row.push(d);
            row.push(entry_str);
            proof {
                assert(texts_of(row@) =~= seq![iso_date_text(e.cob_date), entry_text(*e)]);
                let rows_before = day_rows(es.take(i as int));
                let rows_after = day_rows(es.take(i + 1));
                assert(rows_after.drop_last() =~= rows_before);
                assert(first_day_practices(es.take(i + 1)) == first_day_practices(es.take(i as int)));
                assert(rows_after.len() >= 2);
                if !was_done {
                    assert(rows_before.len() == 1);
                    assert(rows_before =~= seq![rows_before.last()]);
                    assert(record_texts(records@) =~= seq![hdr, row_texts]);
                } else {
                    assert(rows_before =~= rows_before.drop_last().push(rows_before.last()));
                }
                assert(record_texts(records@) =~= export_records(es.take(i + 1), date_label@));
            }
        }
        i += 1;
    }
    assert(es.take(es.len() as int) =~= es);
    proof {
        if !practices_done {
            assert(export_records(es, date_label@) =~= Seq::empty());
            assert(record_texts(records@) =~= Seq::empty());
        }
    }
    write_csv(&records)
}

/// The texts of a vector of strings.
pub open spec fn texts_of(v: Seq<String>) -> Seq<Seq<char>> {
    v.map_values(|s: String| s@)
}

proof fn lemma_first_run(es: Seq<ReportDataEntry>, n: int)
    requires
        0 < n <= es.len(),
    ensures
        1 <= first_run_len(es.take(n)) <= n,
        day_rows(es.take(n)).len() >= 1,
        day_rows(es.take(n)).len() >= 2 <==> first_run_len(es.take(n)) < n,
        first_run_len(es.take(n)) < n ==> first_run_len(es.take(n + 1)) == first_run_len(es.take(n)) || n == es.len(),
        n < es.len() && first_run_len(es.take(n)) == n && es[n].cob_date == es[n - 1].cob_date
            ==> first_run_len(es.take(n + 1)) == n + 1,
        n < es.len() && es[n].cob_date != es[n - 1].cob_date ==> first_run_len(es.take(n + 1)) == first_run_len(es.take(n)),
    decreases n,
{
    if n < es.len() {
        lemma_rows_step(es, n);
    }
    if n > 1 {
        lemma_first_run(es, n - 1);
        lemma_rows_step(es, n - 1);
        let t = es.take(n);
        assert(t.len() == n);
        assert(t.drop_last() == es.take(n - 1));
        assert(t.last() == es[n - 1]);
        assert(t[n - 2] == es[n - 2]);
        let k = first_run_len(es.take(n - 1));
        assert(first_run_len(t) == if k == n - 1 && t.last().cob_date == t[n - 2].cob_date { n } else { k });
        let rest = day_rows(es.take(n - 1));
        assert(day_rows(t).len() == if t[n - 2].cob_date == t.last().cob_date { rest.len() } else { rest.len() + 1 });
    } else {
        assert(es.take(1).drop_last() =~= Seq::<ReportDataEntry>::empty());
        assert(first_run_len(es.take(1).drop_last()) == 0);
        assert(day_rows(es.take(1).drop_last()).len() == 0);
    }
}

proof fn lemma_first_day_prefix(es: Seq<ReportDataEntry>, n: int, k: int)
    requires
        0 <= k <= n <= es.len(),
    ensures
        es.take(n).take(k).map_values(|e: ReportDataEntry| e.practice@) == es.take(k).map_values(|e: ReportDataEntry| e.practice@),
{
    assert(es.take(n).take(k) =~= es.take(k));
}

proof fn lemma_rows_step(es: Seq<ReportDataEntry>, i: int)
    requires
        0 <= i < es.len(),
    ensures
        es.take(i + 1).drop_last() == es.take(i),
        es.take(i + 1).last() == es[i],
        i >= 1 ==> es.take(i + 1)[i - 1] == es[i - 1],
{
    assert(es.take(i + 1).drop_last() =~= es.take(i));
}

} // verus!

//! Typing durations and times: the grammar of a duration as typed (minutes,
//! hours, or hours and minutes), its normal form, and the masks that keep the
//! text of a duration or time field well formed while typing.
use vstd::prelude::*;
use crate::text::{
    chars_of, decimal, digit_char, digits_value, digit_value, is_digit, push_all, push_decimal, string_of,
};

verus! {

/// White space as a JavaScript regular expression's `\s` matches it.
pub open spec fn is_js_space(c: char) -> bool {
    let u = c as u32;
    (0x9 <= u <= 0xd) || u == 0x20 || u == 0xa0 || u == 0x1680 || (0x2000 <= u <= 0x200a)
        || u == 0x2028 || u == 0x2029 || u == 0x202f || u == 0x205f || u == 0x3000 || u == 0xfeff
}

fn js_space(c: char) -> (r: bool)
    ensures
        r == is_js_space(c),
{
    let u = c as u32;
    (0x9 <= u && u <= 0xd) || u == 0x20 || u == 0xa0 || u == 0x1680 || (0x2000 <= u && u <= 0x200a)
        || u == 0x2028 || u == 0x2029 || u == 0x202f || u == 0x205f || u == 0x3000 || u == 0xfeff
}

fn digit(c: char) -> (r: bool)
    ensures
        r == is_digit(c),
{
    '0' <= c && c <= '9'
}

/// Whether every character of `d` is an ASCII digit.
pub open spec fn all_digits(d: Seq<char>) -> bool {
    forall|i: int| 0 <= i < d.len() ==> is_digit(#[trigger] d[i])
}

/// `s` without a trailing `m`.
pub open spec fn strip_m(s: Seq<char>) -> Seq<char> {
    if s.len() > 0 && s.last() == 'm' { s.drop_last() } else { s }
}

/// Minutes only: one to three digits, optionally followed by `m`.
pub open spec fn minutes_only(s: Seq<char>) -> Option<Seq<char>> {
    let d = strip_m(s);
    if 1 <= d.len() <= 3 && all_digits(d) {
        Some(d)
    } else {
        None
    }
}

/// The length of the hours at the start of `s` for the `k`-th way of reading
/// them, in the order they are tried: a `0` or `1` and a digit, a single
/// digit, a `2` and a digit from `0` to `3`.
pub open spec fn hour_candidate(s: Seq<char>, k: int) -> Option<int> {
    if k == 0 {
        if s.len() >= 2 && ('0' <= s[0] <= '1') && is_digit(s[1]) { Some(2) } else { None }
    } else if k == 1 {
        if s.len() >= 1 && is_digit(s[0]) { Some(1) } else { None }
    } else {
        if s.len() >= 2 && s[0] == '2' && ('0' <= s[1] <= '3') { Some(2) } else { None }
    }
}

/// What may follow hours given alone: nothing, `h`, `h` and a space, a space,
/// or `:`.
pub open spec fn is_hours_suffix(t: Seq<char>) -> bool {
    ||| t.len() == 0
    ||| t.len() == 1 && (t[0] == 'h' || t[0] == ':' || is_js_space(t[0]))
    ||| t.len() == 2 && t[0] == 'h' && is_js_space(t[1])
}

/// Minutes after hours: a separator (as after hours given alone), one or two
/// digits (a two-digit number not above 59), and an optional `m`; the minutes
/// as typed.
pub open spec fn minutes_tail(t: Seq<char>) -> Option<Seq<char>> {
    let u = if t.len() > 0 && t.last() == 'm' { t.drop_last() } else { t };
    if u.len() >= 2 && is_digit(u[u.len() - 2]) && is_digit(u.last()) {
        if '0' <= u[u.len() - 2] <= '5' && is_hours_suffix(u.take(u.len() - 2)) {
            Some(u.skip(u.len() - 2))
        } else {
            None
        }
    } else if u.len() >= 1 && is_digit(u.last()) {
        if is_hours_suffix(u.drop_last()) { Some(u.skip(u.len() - 1)) } else { None }
    } else {
        None
    }
}

/// The hours read by the first way of reading them after which the rest is a
/// suffix of hours given alone.
pub open spec fn hours_only(s: Seq<char>) -> Option<Seq<char>> {
    if hour_candidate(s, 0) is Some && is_hours_suffix(s.skip(2)) {
        Some(s.take(2))
    } else if hour_candidate(s, 1) is Some && is_hours_suffix(s.skip(1)) {
        Some(s.take(1))
    } else if hour_candidate(s, 2) is Some && is_hours_suffix(s.skip(2)) {
        Some(s.take(2))
    } else {
        None
    }
}

/// The hours and minutes read by the first way of reading the hours after
/// which the rest is minutes.
pub open spec fn hours_and_minutes(s: Seq<char>) -> Option<(Seq<char>, Seq<char>)> {
    if hour_candidate(s, 0) is Some && minutes_tail(s.skip(2)) is Some {
        Some((s.take(2), minutes_tail(s.skip(2))->0))
    } else if hour_candidate(s, 1) is Some && minutes_tail(s.skip(1)) is Some {
        Some((s.take(1), minutes_tail(s.skip(1))->0))
    } else if hour_candidate(s, 2) is Some && minutes_tail(s.skip(2)) is Some {
        Some((s.take(2), minutes_tail(s.skip(2))->0))
    } else {
        None
    }
}

/// A duration as typed, in the order the forms are tried.
pub enum TypedDuration {
    /// Minutes only, as typed.
    Minutes(Seq<char>),
    /// Hours only, as typed.
    Hours(Seq<char>),
    /// Hours and minutes, as typed.
    HoursMinutes(Seq<char>, Seq<char>),
}

/// How a typed duration reads: minutes only, else hours only, else hours and
/// minutes; `None` when it is none of them.
pub open spec fn read_duration(s: Seq<char>) -> Option<TypedDuration> {
    if minutes_only(s) is Some {
        Some(TypedDuration::Minutes(minutes_only(s)->0))
    } else if hours_only(s) is Some {
        Some(TypedDuration::Hours(hours_only(s)->0))
    } else if hours_and_minutes(s) is Some {
        let hm = hours_and_minutes(s)->0;
        Some(TypedDuration::HoursMinutes(hm.0, hm.1))
    } else {
        None
    }
}

/// `{hours}h{minutes}m`, where hours written as `0` are left out.
pub open spec fn duration_normal_form(hours: Seq<char>, minutes: Seq<char>) -> Seq<char> {
    let hours_part = if hours == seq!['0'] { Seq::empty() } else { hours + seq!['h'] };
    hours_part + minutes + seq!['m']
}

/// The normal form of a typed duration: minutes only are split into hours
/// and minutes, hours and minutes keep the digits as typed. Hours given
/// alone are no complete duration (a field holding them is left as typed),
/// nor are empty or malformed texts: `None`.
pub open spec fn format_duration_spec(s: Seq<char>) -> Option<Seq<char>> {
    if s.len() == 0 {
        None
    } else {
        match read_duration(s) {
            None => None,
            Some(TypedDuration::Minutes(d)) => {
                let mins = digits_value(d);
                Some(duration_normal_form(decimal(mins / 60), decimal(mins % 60)))
            },
            Some(TypedDuration::Hours(h)) => None,
            Some(TypedDuration::HoursMinutes(h, m)) => Some(duration_normal_form(h, m)),
        }
    }
}

/// Whether the whole text is a duration in one of the three forms.
pub open spec fn is_valid_duration(s: Seq<char>) -> bool {
    read_duration(s) is Some
}

fn check_minutes_only(v: &Vec<char>) -> (r: bool)
    ensures
        r == minutes_only(v@) is Some,
{
    let n = if v.len() > 0 && v[v.len() - 1] == 'm' { v.len() - 1 } else { v.len() };
    let ghost d = strip_m(v@);
    assert(d =~= v@.take(n as int));
    if n < 1 || n > 3 {
        return false;
    }
    let mut i: usize = 0;
    while i < n
        invariant
            i <= n <= v@.len(),
            d == v@.take(n as int),
            d == strip_m(v@),
            forall|j: int| 0 <= j < i ==> is_digit(#[trigger] d[j]),
        decreases n - i,
    {
        if !digit(v[i]) {
            assert(!is_digit(d[i as int]));
            assert(!all_digits(d));
            return false;
        }
        i += 1;
    }
    assert(all_digits(d));
    true
}

/// Whether `v[from..to]` is a suffix of hours given alone.
fn check_hours_suffix(v: &Vec<char>, from: usize, to: usize) -> (r: bool)
    requires
        from <= to <= v@.len(),
    ensures
        r == is_hours_suffix(v@.subrange(from as int, to as int)),
{
    let n = to - from;
    if n == 0 {
        true
    } else if n == 1 {
        v[from] == 'h' || v[from] == ':' || js_space(v[from])
    } else if n == 2 {
        v[from] == 'h' && js_space(v[from + 1])
    } else {
        false
    }
}

/// The start of the minutes within `v[from..]` (the rest being minutes after
/// hours), or `None`; the minutes end before any trailing `m`.
fn check_minutes_tail(v: &Vec<char>, from: usize) -> (r: Option<(usize, usize)>)
    requires
        from <= v@.len(),
    ensures
        match minutes_tail(v@.skip(from as int)) {
            None => r is None,
            Some(m) => r matches Some((a, b)) && from <= a <= b <= v@.len() && v@.subrange(a as int, b as int) == m,
        },
{
    let ghost t = v@.skip(from as int);
    let end = if v.len() > from && v[v.len() - 1] == 'm' { v.len() - 1 } else { v.len() };
    let ghost u = if t.len() > 0 && t.last() == 'm' { t.drop_last() } else { t };
    assert(u =~= v@.subrange(from as int, end as int));
    let n = end - from;
    if n >= 2 && digit(v[end - 2]) && digit(v[end - 1]) {
        if '0' <= v[end - 2] && v[end - 2] <= '5' && check_hours_suffix(v, from, end - 2) {
            assert(u.take(u.len() - 2) =~= v@.subrange(from as int, end - 2));
            assert(u.skip(u.len() - 2) =~= v@.subrange(end - 2, end as int));
            Some((end - 2, end))
        } else {
            assert(u.take(u.len() - 2) =~= v@.subrange(from as int, end - 2));
            None
        }
    } else if n >= 1 && digit(v[end - 1]) {
        assert(u.drop_last() =~= v@.subrange(from as int, end - 1));
        if check_hours_suffix(v, from, end - 1) {
            assert(u.skip(u.len() - 1) =~= v@.subrange(end - 1, end as int));
            Some((end - 1, end))
        } else {
            None
        }
    } else {
        None
    }
}

/// The length of the `k`-th reading of hours at the start of `v`.
fn check_hour_candidate(v: &Vec<char>, k: usize) -> (r: Option<usize>)
    ensures
        match hour_candidate(v@, k as int) {
            None => r is None,
            Some(n) => r == Some(n as usize),
        },
{
    if k == 0 {
        if v.len() >= 2 && '0' <= v[0] && v[0] <= '1' && digit(v[1]) { Some(2) } else { None }
    } else if k == 1 {
        if v.len() >= 1 && digit(v[0]) { Some(1) } else { None }
    } else {
        if v.len() >= 2 && v[0] == '2' && '0' <= v[1] && v[1] <= '3' { Some(2) } else { None }
    }
}

/// The number `v[from..to]` spells, for at most three digits.
fn small_number(v: &Vec<char>, from: usize, to: usize) -> (r: u64)
    requires
        from <= to <= v@.len(),
        to - from <= 3,
        forall|i: int| from <= i < to ==> is_digit(#[trigger] v@[i]),
    ensures
        r == digits_value(v@.subrange(from as int, to as int)),
        r < 1000,
{
    let mut acc: u64 = 0;
    let mut i = from;
    while i < to
        invariant
            from <= i <= to <= v@.len(),
            to - from <= 3,
            forall|j: int| from <= j < to ==> is_digit(#[trigger] v@[j]),
            acc == digits_value(v@.subrange(from as int, i as int)),
            acc < pow10(i - from),
        decreases to - i,
    {
        let c = v[i];
        assert(is_digit(v@[i as int]));
        let d = (c as u32 - '0' as u32) as u64;
        assert(v@.subrange(from as int, i + 1).drop_last() =~= v@.subrange(from as int, i as int));
        assert(d == digit_value(v@[i as int]));
        acc = acc * 10 + d;
        i += 1;
    }
    acc
}

spec fn pow10(n: int) -> int {
    if n <= 0 { 1 } else if n == 1 { 10 } else if n == 2 { 100 } else { 1000 }
}

/// The normal form of a typed duration, such as `1h30m` for `90`, `2h0m` for
/// `120` or `1h5m` for `1:5`; `None` for hours given alone (such as `23h`)
/// and for empty or malformed text.
pub fn format_duration_str(input_value: &str) -> (r: Option<String>)
    ensures
        match format_duration_spec(input_value@) {
            None => r is None,
            Some(f) => r is Some && r->0@ == f,
        },
{
    let v = chars_of(input_value);
    if v.len() == 0 {
        return None;
    }
    let mut out: Vec<char> = Vec::new();
    if check_minutes_only(&v) {
        let n = if v[v.len() - 1] == 'm' { v.len() - 1 } else { v.len() };
        let ghost d = strip_m(v@);
        assert(d =~= v@.subrange(0, n as int));
        assert(all_digits(d));
        assert forall|i: int| 0 <= i < n implies is_digit(#[trigger] v@[i]) by {
            assert(d[i] == v@[i]);
        }
        let mins = small_number(&v, 0, n);
        let hours = mins / 60;
        if hours != 0 {
            push_decimal(hours, &mut out);
            out.push('h');
        }
        push_decimal(mins % 60, &mut out);
        out.push('m');
        proof {
            let hs = decimal((mins / 60) as nat);
            if hours == 0 {
                assert(hs == seq!['0']);
            } else {
                crate::text::lemma_decimal_len_pos((mins / 60) as nat);
                lemma_decimal_not_zero_text((mins / 60) as nat);
            }
            assert(out@ =~= duration_normal_form(hs, decimal((mins % 60) as nat)));
        }
        return Some(string_of(&out));
    }
    // Hours only, then hours and minutes.
    let mut k: usize = 0;
    while k < 3
        invariant
            k <= 3,
            v@ == input_value@,
            v@.len() > 0,
            minutes_only(v@) is None,
            out@.len() == 0,
            forall|j: int| 0 <= j < k ==> !(hour_candidate(v@, j) is Some && is_hours_suffix(v@.skip(hour_candidate(v@, j)->0))),
        decreases 3 - k,
    {
        match check_hour_candidate(&v, k) {
            Some(n) => {
                if check_hours_suffix(&v, n, v.len()) {
                    assert(v@.subrange(n as int, v@.len() as int) =~= v@.skip(n as int));
                    assert(hours_only(v@) is Some);
                    return None;
                }
                assert(v@.subrange(n as int, v@.len() as int) =~= v@.skip(n as int));
            },
            None => {},
        }
        k += 1;
    }
    assert(hours_only(v@) is None);
    let mut k: usize = 0;
    while k < 3
        invariant
            k <= 3,
            v@ == input_value@,
            v@.len() > 0,
            minutes_only(v@) is None,
            hours_only(v@) is None,
            out@.len() == 0,
            forall|j: int| 0 <= j < k ==> !(hour_candidate(v@, j) is Some && minutes_tail(v@.skip(hour_candidate(v@, j)->0)) is Some),
        decreases 3 - k,
    {
        match check_hour_candidate(&v, k) {
            Some(n) => {
                match check_minutes_tail(&v, n) {
                    Some((a, b)) => {
                        let mut h: Vec<char> = Vec::new();
                        let mut i: usize = 0;
                        while i < n
                            invariant
                                i <= n <= v@.len(),
                                h@ == v@.take(i as int),
                            decreases n - i,
                        {
                            h.push(v[i]);
                            i += 1;
                            assert(h@ =~= v@.take(i as int));
                        }
                        let mut m: Vec<char> = Vec::new();
                        let mut j: usize = a;
                        while j < b
                            invariant
                                a <= j <= b <= v@.len(),
                                m@ == v@.subrange(a as int, j as int),
                            decreases b - j,
                        {
                            m.push(v[j]);
                            j += 1;
                            assert(m@ =~= v@.subrange(a as int, j as int));
                        }
                        push_hours_and_minutes(&h, &m, &mut out);
                        proof {
                            assert(hours_and_minutes(v@) == Some((v@.take(n as int), m@)));
                        }
                        return Some(string_of(&out));
                    },
                    None => {},
                }
            },
            None => {},
        }
        k += 1;
    }
    assert(hours_and_minutes(v@) is None);
    None
}

proof fn lemma_decimal_not_zero_text(n: nat)
    requires
        n > 0,
    ensures
        decimal(n) != seq!['0'],
    decreases n,
{
    if n < 10 {
        assert(decimal(n)[0] != '0');
    } else {
        crate::text::lemma_decimal_len_pos(n / 10);
        assert(decimal(n).len() >= 2);
    }
}

/// Appends the normal form of hours and minutes given as typed.
fn push_hours_and_minutes(hours: &Vec<char>, minutes: &Vec<char>, out: &mut Vec<char>)
    ensures
        final(out)@ == old(out)@ + duration_normal_form(hours@, minutes@),
{
    let is_zero = hours.len() == 1 && hours[0] == '0';
    assert(is_zero == (hours@ == seq!['0'])) by {
        if hours@ == seq!['0'] {
            assert(hours@.len() == 1);
            assert(hours@[0] == '0');
        }
        if is_zero {
            assert(hours@ =~= seq!['0']);
        }
    }
    let ghost start = out@;
    if !is_zero {
        push_all(out, hours);
        out.push('h');
    }
    push_all(out, minutes);
    out.push('m');
    assert(out@ =~= start + duration_normal_form(hours@, minutes@));
}

} // verus!

verus! {

/// Whether the text is a duration in one of the three forms.
pub fn duration_is_valid(v: &Vec<char>) -> (r: bool)
    ensures
        r == is_valid_duration(v@),
{
    if check_minutes_only(v) {
        return true;
    }
    let mut k: usize = 0;
    while k < 3
        invariant
            k <= 3,
            minutes_only(v@) is None,
            forall|j: int| 0 <= j < k ==> !(hour_candidate(v@, j) is Some && is_hours_suffix(v@.skip(hour_candidate(v@, j)->0))),
            forall|j: int| 0 <= j < k ==> !(hour_candidate(v@, j) is Some && minutes_tail(v@.skip(hour_candidate(v@, j)->0)) is Some),
        decreases 3 - k,
    {
        match check_hour_candidate(v, k) {
            Some(n) => {
                assert(v@.subrange(n as int, v@.len() as int) =~= v@.skip(n as int));
                if check_hours_suffix(v, n, v.len()) {
                    return true;
                }
                if check_minutes_tail(v, n).is_some() {
                    return true;
                }
            },
            None => {},
        }
        k += 1;
    }
    false
}

/// What typing leaves in a duration field: while the text is not a duration,
/// the character at the cursor (a one-based position) is removed, until the
/// text is a duration or nothing is left at the cursor.
pub open spec fn sanitize_spec(s: Seq<char>, cursor: int) -> Seq<char>
    decreases s.len(),
{
    if is_valid_duration(s) {
        s
    } else if 1 <= cursor <= s.len() {
        sanitize_spec(s.remove(cursor - 1), cursor)
    } else {
        s
    }
}

/// Removes what was typed at the cursor until the text of a duration field
/// is well formed again (or nothing is left at the cursor).
pub fn sanitize_duration_input(value: &str, cursor: u32) -> (r: String)
    ensures
        r@ == sanitize_spec(value@, cursor as int),
        is_valid_duration(r@) || !(1 <= cursor <= r@.len()),
{
    let mut s = chars_of(value);
    loop
        invariant
            sanitize_spec(s@, cursor as int) == sanitize_spec(value@, cursor as int),
        ensures
            sanitize_spec(s@, cursor as int) == sanitize_spec(value@, cursor as int),
            is_valid_duration(s@) || !(1 <= cursor <= s@.len()),
        decreases s@.len(),
    {
        if duration_is_valid(&s) {
            break;
        }
        let idx = cursor as usize;
        if idx < 1 || idx > s.len() {
            break;
        }
        s.remove(idx - 1);
    }
    proof { lemma_sanitize_fixed(s@, cursor as int); }
    string_of(&s)
}

proof fn lemma_sanitize_fixed(s: Seq<char>, cursor: int)
    requires
        is_valid_duration(s) || !(1 <= cursor <= s.len()),
    ensures
        sanitize_spec(s, cursor) == s,
{
}

/// A law of the duration mask: what it leaves is a duration, unless nothing
/// is left at the cursor.
pub proof fn law_sanitized_is_duration_or_cursor_past_end(s: Seq<char>, cursor: int)
    ensures
        is_valid_duration(sanitize_spec(s, cursor)) || !(1 <= cursor <= sanitize_spec(s, cursor).len()),
    decreases s.len(),
{
    if !is_valid_duration(s) && 1 <= cursor <= s.len() {
        law_sanitized_is_duration_or_cursor_past_end(s.remove(cursor - 1), cursor);
    }
}

/// The digits of `s`, in order.
pub open spec fn digits_of(s: Seq<char>) -> Seq<char>
    decreases s.len(),
{
    if s.len() == 0 {
        Seq::empty()
    } else if is_digit(s.last()) {
        digits_of(s.drop_last()).push(s.last())
    } else {
        digits_of(s.drop_last())
    }
}

/// The digits of a time as they are placed: a single digit above 2 is an hour
/// and gets a leading zero, two digits above 23 lose the second, and a third
/// digit above 5 starts the minutes' second digit after a zero.
pub open spec fn time_digits(ds: Seq<char>) -> Seq<char> {
    if ds.len() == 1 && digits_value(ds) > 2 {
        seq!['0'] + ds
    } else if ds.len() == 2 && digits_value(ds) > 23 {
        ds.take(1)
    } else if ds.len() == 3 && digit_value(ds[2]) > 5 {
        ds.take(2) + seq!['0'] + ds.skip(2)
    } else {
        ds
    }
}

/// The `i`-th digit, or `-` where there is none.
pub open spec fn digit_or_dash(a: Seq<char>, i: int) -> char {
    if i < a.len() { a[i] } else { '-' }
}

/// The digits laid over the mask `--:--`.
pub open spec fn time_mask(a: Seq<char>) -> Seq<char> {
    seq![digit_or_dash(a, 0), digit_or_dash(a, 1), ':', digit_or_dash(a, 2), digit_or_dash(a, 3)]
}

/// The cursor after a deletion: it stays, but steps back over the `:`.
pub open spec fn cursor_back(i: int) -> int {
    if i == 3 { 2 } else { i }
}

/// The cursor after typing: at the first free position from the number of
/// digits on, or at the end.
pub open spec fn cursor_forward(res: Seq<char>, n: int) -> int {
    crate::release_channel::find_char(res, '-', n)
}

/// The text of a time field and its selection.
pub struct TimeInput {
    pub value: String,
    pub selection_start: u32,
    pub selection_end: u32,
}

/// Masks the text of a time field as `HH:MM`, keeping only digits, and
/// places the selection after a deletion (`back`) or after typing.
pub fn format_time(value: &str, sel_start: u32, sel_end: u32, back: bool) -> (r: TimeInput)
    requires
        back ==> sel_start <= 5 && sel_end <= 5,
    ensures
        r.value@ == time_mask(time_digits(digits_of(value@))),
        back ==> r.selection_start == cursor_back(sel_start as int) && r.selection_end == cursor_back(sel_end as int),
        !back ==> r.selection_start == cursor_forward(r.value@, time_digits(digits_of(value@)).len() as int)
            && r.selection_end == r.selection_start,
{
    let v = chars_of(value);
    let mut ds: Vec<char> = Vec::new();
    let mut i: usize = 0;
    while i < v.len()
        invariant
            i <= v@.len(),
            ds@ == digits_of(v@.take(i as int)),
        decreases v@.len() - i,
    {
        assert(v@.take(i + 1).drop_last() =~= v@.take(i as int));
        if digit(v[i]) {
            ds.push(v[i]);
        }
        i += 1;
    }
    assert(v@.take(v@.len() as int) =~= v@);
    let ghost ds0 = ds@;
    assert(ds0 == digits_of(value@));
    proof { lemma_digits_of_all_digits(value@); }
    // Inject zeroes in the relevant places.
    if ds.len() == 1 && digit_val(ds[0]) > 2 {
        ds.insert(0, '0');
        proof { lemma_one_digit(ds0); }
        assert(ds@ =~= seq!['0'] + ds0);
    } else if ds.len() == 2 && digit_val(ds[0]) * 10 + digit_val(ds[1]) > 23 {
        proof { lemma_two_digits(ds0); }
        ds.remove(1);
        assert(ds@ =~= ds0.take(1));
    } else if ds.len() == 3 && digit_val(ds[2]) > 5 {
        ds.insert(2, '0');
        assert(ds@ =~= ds0.take(2) + seq!['0'] + ds0.skip(2));
    } else {
        proof {
            if ds0.len() == 1 {
                lemma_one_digit(ds0);
            }
            if ds0.len() == 2 {
                lemma_two_digits(ds0);
            }
        }
    }
    let ghost a = ds@;
    assert(a == time_digits(ds0));
    let mut res: Vec<char> = Vec::new();
    res.push(if ds.len() > 0 { ds[0] } else { '-' });
    res.push(if ds.len() > 1 { ds[1] } else { '-' });
    res.push(':');
    res.push(if ds.len() > 2 { ds[2] } else { '-' });
    res.push(if ds.len() > 3 { ds[3] } else { '-' });
    assert(res@ =~= time_mask(a));
    let (new_start, new_end) = if back {
        (if sel_start == 3 { 2 } else { sel_start }, if sel_end == 3 { 2 } else { sel_end })
    } else {
        let n = if ds.len() < 5 { ds.len() } else { 5 };
        let mut j = n;
        while j < 5 && res[j] != '-'
            invariant
                n <= j <= 5,
                res@.len() == 5,
                n == ds@.len() || (n == 5 && ds@.len() >= 5),
                crate::release_channel::find_char(res@, '-', ds@.len() as int) == crate::release_channel::find_char(res@, '-', j as int),
            decreases 5 - j,
        {
            j += 1;
        }
        (j as u32, j as u32)
    };
    TimeInput { value: string_of(&res), selection_start: new_start, selection_end: new_end }
}

fn digit_val(c: char) -> (r: u32)
    requires
        is_digit(c),
    ensures
        r == digit_value(c),
        r < 10,
{
    c as u32 - '0' as u32
}

proof fn lemma_two_digits(ds: Seq<char>)
    requires
        ds.len() == 2,
    ensures
        digits_value(ds) == digit_value(ds[0]) * 10 + digit_value(ds[1]),
{
    lemma_one_digit(ds.drop_last());
    assert(ds.drop_last()[0] == ds[0]);
}

proof fn lemma_one_digit(ds: Seq<char>)
    requires
        ds.len() == 1,
    ensures
        digits_value(ds) == digit_value(ds[0]),
{
    assert(ds.drop_last() =~= Seq::<char>::empty());
    assert(digits_value(ds.drop_last()) == 0);
}

proof fn lemma_digits_of_all_digits(s: Seq<char>)
    ensures
        all_digits(digits_of(s)),
    decreases s.len(),
{
    if s.len() > 0 {
        lemma_digits_of_all_digits(s.drop_last());
    }
}

proof fn lemma_digit_char(d: nat)
    requires
        d < 10,
    ensures
        is_digit(digit_char(d)),
        digit_value(digit_char(d)) == d,
        digit_char(d) as u32 == '0' as u32 + d,
{
}

proof fn lemma_char_of_digit(c: char)
    requires
        is_digit(c),
    ensures
        digit_value(c) < 10,
        digit_char(digit_value(c)) == c,
{
    let u = c as u32;
    assert('0' as u32 <= u <= '9' as u32);
    if u == '0' as u32 { assert(c == '0'); }
    else if u == '1' as u32 { assert(c == '1'); }
    else if u == '2' as u32 { assert(c == '2'); }
    else if u == '3' as u32 { assert(c == '3'); }
    else if u == '4' as u32 { assert(c == '4'); }
    else if u == '5' as u32 { assert(c == '5'); }
    else if u == '6' as u32 { assert(c == '6'); }
    else if u == '7' as u32 { assert(c == '7'); }
    else if u == '8' as u32 { assert(c == '8'); }
    else { assert(c == '9'); }
}

proof fn lemma_small_decimal(n: nat)
    requires
        n < 100,
    ensures
        n < 10 ==> decimal(n) == seq![digit_char(n)],
        n >= 10 ==> decimal(n) == seq![digit_char(n / 10), digit_char(n % 10)],
{
    if n >= 10 {
        assert(decimal(n / 10) == seq![digit_char(n / 10)]);
        assert(decimal(n) =~= seq![digit_char(n / 10), digit_char(n % 10)]);
    }
}

proof fn lemma_digits_value_bound(d: Seq<char>)
    requires
        all_digits(d),
        d.len() <= 3,
    ensures
        digits_value(d) < pow10(d.len() as int),
    decreases d.len(),
{
    if d.len() > 0 {
        assert(all_digits(d.drop_last())) by {
            assert forall|i: int| 0 <= i < d.drop_last().len() implies is_digit(#[trigger] d.drop_last()[i]) by {
                assert(d.drop_last()[i] == d[i]);
            }
        }
        lemma_digits_value_bound(d.drop_last());
        lemma_char_of_digit(d.last());
    }
}

/// Hours as one of the ways of reading them takes them: a digit, a `0` or
/// `1` and a digit, or a `2` and a digit from `0` to `3`.
pub open spec fn hours_shape(h: Seq<char>) -> bool {
    ||| h.len() == 1 && is_digit(h[0])
    ||| h.len() == 2 && '0' <= h[0] <= '1' && is_digit(h[1])
    ||| h.len() == 2 && h[0] == '2' && '0' <= h[1] <= '3'
}

/// Minutes after hours: a digit, or two digits of which the first is at most `5`.
pub open spec fn minutes_shape(m: Seq<char>) -> bool {
    ||| m.len() == 1 && is_digit(m[0])
    ||| m.len() == 2 && '0' <= m[0] <= '5' && is_digit(m[1])
}

proof fn lemma_minutes_tail_after_h(m: Seq<char>)
    requires
        minutes_shape(m),
    ensures
        minutes_tail(seq!['h'] + m + seq!['m']) == Some(m),
{
    let t = seq!['h'] + m + seq!['m'];
    let u = t.drop_last();
    assert(u =~= seq!['h'] + m);
    if m.len() == 2 {
        assert(u.take(1) =~= seq!['h']);
        assert(u.skip(1) =~= m);
    } else {
        assert(u.drop_last() =~= seq!['h']);
        assert(u.skip(1) =~= m);
    }
}

proof fn lemma_minutes_tail_after_digit(x: char, m: Seq<char>)
    requires
        is_digit(x),
        minutes_shape(m),
    ensures
        minutes_tail(seq![x, 'h'] + m + seq!['m']) is None,
{
    let t = seq![x, 'h'] + m + seq!['m'];
    let u = t.drop_last();
    assert(u =~= seq![x, 'h'] + m);
    if m.len() == 2 {
        assert(u.take(2) =~= seq![x, 'h']);
    } else {
        assert(u.drop_last() =~= seq![x, 'h']);
    }
}

proof fn lemma_read_hours_minutes(h: Seq<char>, m: Seq<char>)
    requires
        hours_shape(h),
        minutes_shape(m),
    ensures
        read_duration(h + seq!['h'] + m + seq!['m']) == Some(TypedDuration::HoursMinutes(h, m)),
{
    let t = h + seq!['h'] + m + seq!['m'];
    let n = h.len() as int;
    assert(t.len() == n + m.len() + 2);
    assert(t[n] == 'h');
    assert(forall|i: int| 0 <= i < n ==> t[i] == h[i]);
    // not minutes only: the `h` stays after a trailing `m` is taken off
    assert(strip_m(t) =~= h + seq!['h'] + m);
    assert(strip_m(t)[n] == 'h');
    assert(!all_digits(strip_m(t)));
    // not hours only: whatever the hours read, more than a suffix follows
    assert(t.skip(n) =~= seq!['h'] + m + seq!['m']);
    assert(!is_hours_suffix(t.skip(1)));
    if t.len() == 4 {
        assert(n == 1);
        assert(hour_candidate(t, 0) is None);
        assert(hour_candidate(t, 2) is None);
    } else {
        assert(!is_hours_suffix(t.skip(2)));
    }
    assert(hours_only(t) is None);
    lemma_minutes_tail_after_h(m);
    if n == 2 && '0' <= h[0] <= '1' {
        assert(hour_candidate(t, 0) == Some(2int));
        assert(t.take(2) =~= h);
    } else if n == 1 {
        assert(hour_candidate(t, 0) is None);
        assert(hour_candidate(t, 1) == Some(1int));
        assert(t.take(1) =~= h);
    } else {
        assert(hour_candidate(t, 0) is None);
        assert(hour_candidate(t, 1) == Some(1int));
        assert(t.skip(1) =~= seq![h[1], 'h'] + m + seq!['m']);
        lemma_minutes_tail_after_digit(h[1], m);
        assert(hour_candidate(t, 2) == Some(2int));
        assert(t.take(2) =~= h);
    }
}

proof fn lemma_read_shapes(s: Seq<char>, h: Seq<char>, m: Seq<char>)
    requires
        hours_and_minutes(s) == Some((h, m)),
    ensures
        hours_shape(h),
        minutes_shape(m),
{
    let t0 = s.skip(2);
    let t1 = s.skip(1);
    if hour_candidate(s, 0) is Some && minutes_tail(t0) is Some {
        assert(s.take(2)[0] == s[0] && s.take(2)[1] == s[1]);
        lemma_minutes_tail_shape(t0);
    } else if hour_candidate(s, 1) is Some && minutes_tail(t1) is Some {
        assert(s.take(1)[0] == s[0]);
        lemma_minutes_tail_shape(t1);
    } else {
        assert(s.take(2)[0] == s[0] && s.take(2)[1] == s[1]);
        lemma_minutes_tail_shape(t0);
    }
}

proof fn lemma_minutes_tail_shape(t: Seq<char>)
    requires
        minutes_tail(t) is Some,
    ensures
        minutes_shape(minutes_tail(t)->0),
{
    let u = if t.len() > 0 && t.last() == 'm' { t.drop_last() } else { t };
    if u.len() >= 2 && is_digit(u[u.len() - 2]) && is_digit(u.last()) {
        let m = u.skip(u.len() - 2);
        assert(m[0] == u[u.len() - 2] && m[1] == u.last());
    } else {
        let m = u.skip(u.len() - 1);
        assert(m[0] == u.last());
    }
}

proof fn lemma_decimal_of_minutes(m: Seq<char>)
    requires
        minutes_shape(m),
        m[0] != '0' || m.len() == 1,
    ensures
        digits_value(m) < 60,
        decimal(digits_value(m)) == m,
{
    lemma_char_of_digit(m[0]);
    if m.len() == 1 {
        lemma_one_digit(m);
        lemma_small_decimal(digits_value(m));
        assert(decimal(digits_value(m)) =~= m);
    } else {
        lemma_two_digits(m);
        lemma_char_of_digit(m[1]);
        let a = digit_value(m[0]);
        let b = digit_value(m[1]);
        assert(1 <= a <= 5);
        let v = digits_value(m);
        assert(v == a * 10 + b);
        assert(v / 10 == a && v % 10 == b);
        lemma_small_decimal(v);
        assert(decimal(v) =~= m);
    }
}

proof fn lemma_shapes_of_decimals(h: nat, m: nat)
    requires
        1 <= h <= 16,
        m < 60,
    ensures
        hours_shape(decimal(h)),
        minutes_shape(decimal(m)),
{
    lemma_small_decimal(h);
    lemma_small_decimal(m);
    if h < 10 {
        lemma_digit_char(h);
    } else {
        lemma_digit_char(h / 10);
        lemma_digit_char(h % 10);
    }
    if m < 10 {
        lemma_digit_char(m);
    } else {
        lemma_digit_char(m / 10);
        lemma_digit_char(m % 10);
    }
}

/// A duration's normal form is its own normal form, when it does not start
/// with `0`.
pub proof fn law_normal_form_is_kept(s: Seq<char>)
    requires
        format_duration_spec(s) is Some,
        format_duration_spec(s)->0[0] != '0',
    ensures
        format_duration_spec(format_duration_spec(s)->0) == format_duration_spec(s),
{
    let t = format_duration_spec(s)->0;
    match read_duration(s) {
        Some(TypedDuration::Minutes(d)) => {
            assert(d == minutes_only(s)->0);
            lemma_digits_value_bound(d);
            let mins = digits_value(d);
            assert(mins < 1000);
            let h = mins / 60;
            let m = mins % 60;
            lemma_small_decimal(h);
            lemma_small_decimal(m);
            if h == 0 {
                assert(decimal(h) == seq!['0']);
                assert(t =~= decimal(m) + seq!['m']);
                if m == 0 {
                    assert(t[0] == '0');
                }
                let dm = decimal(m);
                assert(strip_m(t) =~= dm);
                if m < 10 {
                    lemma_digit_char(m);
                    lemma_one_digit(dm);
                } else {
                    lemma_digit_char(m / 10);
                    lemma_digit_char(m % 10);
                    lemma_two_digits(dm);
                }
                assert(all_digits(dm));
                assert(minutes_only(t) == Some(dm));
                assert(digits_value(dm) == m);
                assert(t =~= duration_normal_form(decimal(m / 60), decimal(m % 60)));
            } else {
                lemma_decimal_not_zero_text(h);
                assert(t =~= decimal(h) + seq!['h'] + decimal(m) + seq!['m']);
                lemma_shapes_of_decimals(h, m);
                lemma_read_hours_minutes(decimal(h), decimal(m));
            }
        },
        Some(TypedDuration::Hours(_)) => {},
        Some(TypedDuration::HoursMinutes(hh, mm)) => {
            assert(hours_and_minutes(s) == Some((hh, mm)));
            lemma_read_shapes(s, hh, mm);
            if hh == seq!['0'] {
                assert(t =~= mm + seq!['m']);
                assert(mm[0] == t[0]);
                lemma_decimal_of_minutes(mm);
                assert(strip_m(t) =~= mm);
                assert(all_digits(mm));
                assert(minutes_only(t) == Some(mm));
                let v = digits_value(mm);
                assert(v / 60 == 0 && v % 60 == v);
                lemma_small_decimal(0);
                assert(t =~= duration_normal_form(decimal(v / 60), decimal(v % 60)));
            } else {
                assert(t =~= hh + seq!['h'] + mm + seq!['m']);
                lemma_read_hours_minutes(hh, mm);
            }
        },
        None => {},
    }
}

/// Whether the digits `ds` begin a time of the clock `HHMM`: at most four,
/// the hour's first digit at most 2, the hour at most 23, and the minutes'
/// first digit at most 5.
pub open spec fn begins_clock_time(ds: Seq<char>) -> bool {
    &&& ds.len() <= 4
    &&& all_digits(ds)
    &&& ds.len() >= 1 ==> digit_value(ds[0]) <= 2
    &&& ds.len() >= 2 ==> digit_value(ds[0]) * 10 + digit_value(ds[1]) <= 23
    &&& ds.len() >= 3 ==> digit_value(ds[2]) <= 5
}

proof fn lemma_digits_of_digits(s: Seq<char>)
    requires
        all_digits(s),
    ensures
        digits_of(s) == s,
    decreases s.len(),
{
    if s.len() > 0 {
        assert(all_digits(s.drop_last()));
        lemma_digits_of_digits(s.drop_last());
        assert(digits_of(s.drop_last()).push(s.last()) =~= s);
    }
}

/// Typing the start of a time of the clock keeps it as typed: the mask shows
/// those digits in their places, with no zero put in front of an hour's first
/// digit that may still be followed by a second (0, 1 or 2).
pub proof fn law_typed_time_prefix_is_kept(s: Seq<char>)
    requires
        begins_clock_time(s),
    ensures
        time_digits(digits_of(s)) == s,
        time_mask(time_digits(digits_of(s))) == seq![digit_or_dash(s, 0), digit_or_dash(s, 1), ':', digit_or_dash(s, 2), digit_or_dash(s, 3)],
{
    lemma_digits_of_digits(s);
    if s.len() == 1 {
        lemma_one_digit(s);
    }
    if s.len() == 2 {
        lemma_two_digits(s);
    }
}

} // verus!

//! The release channel (stable or preview) that the app is served from, kept
//! in a cookie.
use vstd::prelude::*;
use crate::text::{chars_of, push_all, string_of};

verus! {

/// The cookie that holds the release channel.
pub const COOKIE_NAME: &'static str = "sadhana_release_channel";

/// The attributes the release channel cookie is set with (thirty days).
pub const COOKIE_ATTRIBUTES: &'static str = "; Path=/; Secure; SameSite=Lax; Max-Age=2592000";

/// The channel the app is served from.
#[derive(Clone, Copy, Debug, PartialEq, Eq, Structural)]
pub enum ReleaseChannel {
    Stable,
    Preview,
}

/// The name of a channel as it is stored in the cookie.
pub open spec fn channel_name(c: ReleaseChannel) -> Seq<char> {
    match c {
        ReleaseChannel::Stable => seq!['s', 't', 'a', 'b', 'l', 'e'],
        ReleaseChannel::Preview => seq!['p', 'r', 'e', 'v', 'i', 'e', 'w'],
    }
}

/// The characters of the cookie's name.
pub open spec fn cookie_name() -> Seq<char> {
    seq!['s', 'a', 'd', 'h', 'a', 'n', 'a', '_', 'r', 'e', 'l', 'e', 'a', 's', 'e', '_', 'c', 'h', 'a', 'n', 'n', 'e', 'l']
}

impl ReleaseChannel {
    /// The name of the channel: `stable` or `preview`.
    pub fn as_str(self) -> (r: &'static str)
        ensures
            r@ == channel_name(self),
    {
        match self {
            ReleaseChannel::Stable => {
                let s = "stable";
                proof { reveal_strlit("stable"); }
                s
            },
            ReleaseChannel::Preview => {
                let s = "preview";
                proof { reveal_strlit("preview"); }
                s
            },
        }
    }
}

/// The other channel.
pub open spec fn other_channel(c: ReleaseChannel) -> ReleaseChannel {
    match c {
        ReleaseChannel::Stable => ReleaseChannel::Preview,
        ReleaseChannel::Preview => ReleaseChannel::Stable,
    }
}

/// Whether `c` is white space (Unicode `White_Space`, as `str::trim` removes).
pub open spec fn is_white_space(c: char) -> bool {
    let u = c as u32;
    (0x9 <= u <= 0xd) || u == 0x20 || u == 0x85 || u == 0xa0 || u == 0x1680 || (0x2000 <= u
        <= 0x200a) || u == 0x2028 || u == 0x2029 || u == 0x202f || u == 0x205f || u == 0x3000
}

fn white_space(c: char) -> (r: bool)
    ensures
        r == is_white_space(c),
{
    let u = c as u32;
    (0x9 <= u && u <= 0xd) || u == 0x20 || u == 0x85 || u == 0xa0 || u == 0x1680 || (0x2000 <= u
        && u <= 0x200a) || u == 0x2028 || u == 0x2029 || u == 0x202f || u == 0x205f || u == 0x3000
}

/// `s` without its leading white space.
pub open spec fn trim_start(s: Seq<char>) -> Seq<char>
    decreases s.len(),
{
    if s.len() > 0 && is_white_space(s[0]) {
        trim_start(s.drop_first())
    } else {
        s
    }
}

/// `s` without its trailing white space.
pub open spec fn trim_end(s: Seq<char>) -> Seq<char>
    decreases s.len(),
{
    if s.len() > 0 && is_white_space(s.last()) {
        trim_end(s.drop_last())
    } else {
        s
    }
}

/// `s` without leading and trailing white space.
pub open spec fn trim(s: Seq<char>) -> Seq<char> {
    trim_end(trim_start(s))
}

/// The first index at or after `from` that holds `c`, or the length of `s`.
pub open spec fn find_char(s: Seq<char>, c: char, from: int) -> int
    decreases s.len() - from,
{
    if from >= s.len() {
        s.len() as int
    } else if s[from] == c {
        from
    } else {
        find_char(s, c, from + 1)
    }
}

/// The value of the release channel cookie in one `name=value` pair: the text
/// after the first `=` when the text before it is the cookie's name.
pub open spec fn pair_value(pair: Seq<char>) -> Option<Seq<char>> {
    let k = find_char(pair, '=', 0);
    if k < pair.len() && pair.take(k) == cookie_name() {
        Some(pair.skip(k + 1))
    } else {
        None
    }
}

/// The channel read from the `;`-separated pairs of `s` starting at `from`:
/// the first pair (trimmed) that names the cookie decides, `preview` giving
/// the preview channel and any other value the stable one; stable when no
/// pair names the cookie.
pub open spec fn channel_from(s: Seq<char>, from: int) -> ReleaseChannel
    decreases s.len() - from,
{
    if from < 0 || from > s.len() {
        ReleaseChannel::Stable
    } else {
        let e = find_char(s, ';', from);
        proof { lemma_find_char_range(s, ';', from); }
        match pair_value(trim(s.subrange(from, e))) {
            Some(v) => if v == channel_name(ReleaseChannel::Preview) {
                ReleaseChannel::Preview
            } else {
                ReleaseChannel::Stable
            },
            None => if e >= s.len() {
                ReleaseChannel::Stable
            } else {
                channel_from(s, e + 1)
            },
        }
    }
}

/// The release channel a cookie string selects.
pub open spec fn parse_cookie_spec(cookie: Seq<char>) -> ReleaseChannel {
    channel_from(cookie, 0)
}

pub proof fn lemma_find_char_range(s: Seq<char>, c: char, from: int)
    requires
        0 <= from,
    ensures
        from <= find_char(s, c, from) || from > s.len(),
        find_char(s, c, from) <= s.len(),
        find_char(s, c, from) < s.len() ==> s[find_char(s, c, from)] == c,
        forall|j: int| from <= j < find_char(s, c, from) ==> s[j] != c,
    decreases s.len() - from,
{
    if from < s.len() && s[from] != c {
        lemma_find_char_range(s, c, from + 1);
    }
}

/// Finds `c` in `v` from `from` on, returning its index or the length.
fn find(v: &Vec<char>, c: char, from: usize) -> (r: usize)
    requires
        from <= v@.len(),
    ensures
        r == find_char(v@, c, from as int),
{
    let mut i = from;
    while i < v.len() && v[i] != c
        invariant
            from <= i <= v@.len(),
            find_char(v@, c, from as int) == find_char(v@, c, i as int),
        decreases v@.len() - i,
    {
        i += 1;
    }
    i
}

/// The trimmed part of `v[from..to]`, as the bounds `(a, b)` of `v[a..b]`.
fn trim_bounds(v: &Vec<char>, from: usize, to: usize) -> (r: (usize, usize))
    requires
        from <= to <= v@.len(),
    ensures
        from <= r.0 <= r.1 <= to,
        v@.subrange(r.0 as int, r.1 as int) == trim(v@.subrange(from as int, to as int)),
{
    let mut a = from;
    while a < to && white_space(v[a])
        invariant
            from <= a <= to,
            to <= v@.len(),
            trim_start(v@.subrange(from as int, to as int)) == trim_start(v@.subrange(a as int, to as int)),
        decreases to - a,
    {
        assert(v@.subrange(a as int, to as int).drop_first() =~= v@.subrange(a + 1, to as int));
        a += 1;
    }
    let mut b = to;
    while b > a && white_space(v[b - 1])
        invariant
            a <= b <= to,
            to <= v@.len(),
            trim_end(v@.subrange(a as int, to as int)) == trim_end(v@.subrange(a as int, b as int)),
        decreases b - a,
    {
        assert(v@.subrange(a as int, b as int).drop_last() =~= v@.subrange(a as int, b - 1));
        b -= 1;
    }
    (a, b)
}

/// `s` without leading and trailing white space, as `str::trim` gives it.
pub fn trim_text(s: &str) -> (r: String)
    ensures
        r@ == trim(s@),
{
    let v = chars_of(s);
    let (a, b) = trim_bounds(&v, 0, v.len());
    assert(v@.subrange(0, v@.len() as int) =~= v@);
    let mut out: Vec<char> = Vec::new();
    let mut k: usize = a;
    while k < b
        invariant
            a <= k <= b <= v@.len(),
            out@ == v@.subrange(a as int, k as int),
        decreases b - k,
    {
        out.push(v[k]);
        k += 1;
        assert(out@ =~= v@.subrange(a as int, k as int));
    }
    string_of(&out)
}

/// The characters of `v` without leading and trailing white space.
pub fn trim_chars(v: &Vec<char>) -> (r: Vec<char>)
    ensures
        r@ == trim(v@),
{
    let (a, b) = trim_bounds(v, 0, v.len());
    assert(v@.subrange(0, v@.len() as int) =~= v@);
    let mut out: Vec<char> = Vec::new();
    let mut k: usize = a;
    while k < b
        invariant
            a <= k <= b <= v@.len(),
            out@ == v@.subrange(a as int, k as int),
        decreases b - k,
    {
        out.push(v[k]);
        k += 1;
        assert(out@ =~= v@.subrange(a as int, k as int));
    }
    out
}

/// Whether `v[from..to]` spells `w`.
fn slice_equals(v: &Vec<char>, from: usize, to: usize, w: &Vec<char>) -> (r: bool)
    requires
        from <= to <= v@.len(),
    ensures
        r == (v@.subrange(from as int, to as int) == w@),
{
    if to - from != w.len() {
        return false;
    }
    let mut i: usize = 0;
    while i < w.len()
        invariant
            to - from == w@.len(),
            from <= to <= v@.len(),
            i <= w@.len(),
            forall|j: int| 0 <= j < i ==> v@[from + j] == w@[j],
        decreases w@.len() - i,
    {
        if v[from + i] != w[i] {
            assert(v@.subrange(from as int, to as int)[i as int] != w@[i as int]);
            return false;
        }
        i += 1;
    }
    assert(v@.subrange(from as int, to as int) =~= w@);
    true
}

/// Reads the release channel from a cookie string: the value of the
/// `sadhana_release_channel` pair, `preview` meaning the preview channel and
/// anything else, or no such pair, the stable one.
pub fn parse_release_channel_cookie(cookie: &str) -> (r: ReleaseChannel)
    ensures
        r == parse_cookie_spec(cookie@),
{
    let v = chars_of(cookie);
    let name = chars_of(COOKIE_NAME);
    let preview = chars_of(ReleaseChannel::Preview.as_str());
    proof {
        reveal_strlit("sadhana_release_channel");
        assert(name@ == cookie_name());
    }
    let mut from: usize = 0;
    while from <= v.len()
        invariant
            from <= v@.len() + 1,
            v@ == cookie@,
            name@ == cookie_name(),
            preview@ == channel_name(ReleaseChannel::Preview),
            channel_from(v@, 0) == channel_from(v@, from as int),
        decreases v@.len() + 1 - from,
    {
        let e = find(&v, ';', from);
        proof { lemma_find_char_range(v@, ';', from as int); }
        let (a, b) = trim_bounds(&v, from, e);
        let ghost pair = v@.subrange(a as int, b as int);
        let k = find(&v, '=', a);
        proof {
            lemma_find_char_range(v@, '=', a as int);
            lemma_find_in_pair(v@, a as int, b as int);
        }
        assert(trim(v@.subrange(from as int, e as int)) == pair);
        assert(channel_from(v@, from as int) == match pair_value(pair) {
            Some(val) => if val == channel_name(ReleaseChannel::Preview) {
                ReleaseChannel::Preview
            } else {
                ReleaseChannel::Stable
            },
            None => if e >= v@.len() {
                ReleaseChannel::Stable
            } else {
                channel_from(v@, e + 1)
            },
        });
        if k < b && slice_equals(&v, a, k, &name) {
            assert(pair.take(k - a) =~= v@.subrange(a as int, k as int));
            assert(pair.skip(k - a + 1) =~= v@.subrange(k + 1, b as int));
            assert(pair_value(pair) == Some(v@.subrange(k + 1, b as int)));
            if slice_equals(&v, k + 1, b, &preview) {
                return ReleaseChannel::Preview;
            } else {
                return ReleaseChannel::Stable;
            }
        }
        proof {
            if k < b {
                assert(pair.take(k - a) =~= v@.subrange(a as int, k as int));
            }
            assert(pair_value(pair) is None);
        }
        if e >= v.len() {
            return ReleaseChannel::Stable;
        }
        from = e + 1;
    }
    ReleaseChannel::Stable
}

/// The first `=` of `v[a..b]` is found by searching `v` from `a` when the
/// search stops inside the range.
proof fn lemma_find_in_pair(v: Seq<char>, a: int, b: int)
    requires
        0 <= a <= b <= v.len(),
    ensures
        ({
            let k = find_char(v, '=', a);
            let pair = v.subrange(a, b);
            &&& k < b ==> find_char(pair, '=', 0) == k - a
            &&& k >= b ==> find_char(pair, '=', 0) == pair.len()
        }),
{
    lemma_find_char_range(v, '=', a);
    let pair = v.subrange(a, b);
    lemma_find_char_range(pair, '=', 0);
    let k = find_char(v, '=', a);
    let kp = find_char(pair, '=', 0);
    if kp < pair.len() {
        assert(v[a + kp] == '=');
    }
    if k < b {
        assert(pair[k - a] == '=');
    }
}

/// The channel after switching: stable becomes preview and preview stable.
pub fn next_release_channel(current: ReleaseChannel) -> (r: ReleaseChannel)
    ensures
        r == other_channel(current),
{
    match current {
        ReleaseChannel::Stable => ReleaseChannel::Preview,
        ReleaseChannel::Preview => ReleaseChannel::Stable,
    }
}

/// The channel to switch to, given the current cookie string.
pub fn toggle_release_channel(cookie: &str) -> (r: ReleaseChannel)
    ensures
        r == other_channel(parse_cookie_spec(cookie@)),
{
    next_release_channel(parse_release_channel_cookie(cookie))
}

/// The attributes of the cookie, as characters.
pub open spec fn cookie_attributes() -> Seq<char> {
    seq![';', ' ', 'P', 'a', 't', 'h', '=', '/', ';', ' ', 'S', 'e', 'c', 'u', 'r', 'e', ';', ' ', 'S', 'a', 'm', 'e', 'S', 'i', 't', 'e', '=', 'L', 'a', 'x', ';', ' ', 'M', 'a', 'x', '-', 'A', 'g', 'e', '=', '2', '5', '9', '2', '0', '0', '0']
}

/// The cookie string that stores `channel`: the pair and its attributes.
pub open spec fn cookie_for(channel: ReleaseChannel) -> Seq<char> {
    cookie_name() + seq!['='] + channel_name(channel) + cookie_attributes()
}

/// The cookie string that stores `channel` for thirty days.
pub fn release_channel_cookie(channel: ReleaseChannel) -> (r: String)
    ensures
        r@ == cookie_for(channel),
{
    let mut out = chars_of(COOKIE_NAME);
    out.push('=');
    let value = chars_of(channel.as_str());
    push_all(&mut out, &value);
    let attrs = chars_of(COOKIE_ATTRIBUTES);
    push_all(&mut out, &attrs);
    proof {
        reveal_strlit("sadhana_release_channel");
        reveal_strlit("; Path=/; Secure; SameSite=Lax; Max-Age=2592000");
        assert(out@ =~= cookie_for(channel));
    }
    string_of(&out)
}

} // verus!

verus! {

proof fn lemma_find_char_at(s: Seq<char>, c: char, from: int, k: int)
    requires
        0 <= from <= k < s.len(),
        s[k] == c,
        forall|j: int| from <= j < k ==> s[j] != c,
    ensures
        find_char(s, c, from) == k,
    decreases k - from,
{
    if from < k {
        lemma_find_char_at(s, c, from + 1, k);
    }
}

proof fn lemma_find_char_absent(s: Seq<char>, c: char, from: int)
    requires
        0 <= from <= s.len(),
        forall|j: int| from <= j < s.len() ==> s[j] != c,
    ensures
        find_char(s, c, from) == s.len(),
    decreases s.len() - from,
{
    if from < s.len() {
        lemma_find_char_absent(s, c, from + 1);
    }
}

proof fn lemma_trim_unchanged(s: Seq<char>)
    requires
        s.len() > 0,
        !is_white_space(s[0]),
        !is_white_space(s.last()),
    ensures
        trim(s) == s,
{
}

/// The `name=value` pair of a channel, as a browser reports the cookie back.
pub open spec fn cookie_pair(channel: ReleaseChannel) -> Seq<char> {
    cookie_name() + seq!['='] + channel_name(channel)
}

proof fn lemma_pair_decides(s: Seq<char>, channel: ReleaseChannel)
    requires
        s.len() >= cookie_pair(channel).len(),
        s.take(cookie_pair(channel).len() as int) == cookie_pair(channel),
        s.len() == cookie_pair(channel).len() || s[cookie_pair(channel).len() as int] == ';',
    ensures
        parse_cookie_spec(s) == channel,
{
    let p = cookie_pair(channel);
    let n = p.len() as int;
    assert(forall|j: int| 0 <= j < n ==> s[j] == p[j]);
    assert(forall|j: int| 0 <= j < 23 ==> p[j] == cookie_name()[j]);
    assert(p[23] == '=');
    assert(forall|j: int| 24 <= j < n ==> p[j] == channel_name(channel)[j - 24]);
    assert forall|j: int| 0 <= j < n implies s[j] != ';' by {
        assert(s[j] == p[j]);
        if j < 23 {
            assert(p[j] == cookie_name()[j]);
        } else if j > 23 {
            assert(p[j] == channel_name(channel)[j - 24]);
        }
    }
    if s.len() == n {
        lemma_find_char_absent(s, ';', 0);
    } else {
        lemma_find_char_at(s, ';', 0, n);
    }
    let e = find_char(s, ';', 0);
    assert(e == n);
    let seg = s.subrange(0, e);
    assert(seg =~= p);
    lemma_trim_unchanged(seg);
    assert forall|j: int| 0 <= j < 23 implies seg[j] != '=' by {
        assert(seg[j] == cookie_name()[j]);
    }
    lemma_find_char_at(seg, '=', 0, 23);
    assert(seg.take(23) =~= cookie_name());
    assert(seg.skip(24) =~= channel_name(channel));
    assert(pair_value(seg) == Some(channel_name(channel)));
    if channel == ReleaseChannel::Stable {
        assert(channel_name(channel)[0] != channel_name(ReleaseChannel::Preview)[0]);
    }
}

/// Reading back the cookie string that stores a channel gives that channel.
pub proof fn law_cookie_round_trip(channel: ReleaseChannel)
    ensures
        parse_cookie_spec(cookie_for(channel)) == channel,
{
    let s = cookie_for(channel);
    let n = cookie_pair(channel).len() as int;
    assert(s.take(n) =~= cookie_pair(channel));
    assert(s[n] == cookie_attributes()[0]);
    lemma_pair_decides(s, channel);
}

/// The `name=value` pair that a browser reports back for a stored channel
/// reads as that channel.
pub proof fn law_pair_round_trip(channel: ReleaseChannel)
    ensures
        parse_cookie_spec(cookie_pair(channel)) == channel,
{
    let s = cookie_pair(channel);
    assert(s.take(s.len() as int) =~= s);
    lemma_pair_decides(s, channel);
}

/// Whether none of the `;`-separated pairs of `s` from `from` on names the
/// release channel cookie.
pub open spec fn no_channel_pair(s: Seq<char>, from: int) -> bool
    decreases s.len() - from,
{
    if from < 0 || from > s.len() {
        true
    } else {
        let e = find_char(s, ';', from);
        proof { lemma_find_char_range(s, ';', from); }
        pair_value(trim(s.subrange(from, e))) is None && (e >= s.len() || no_channel_pair(s, e + 1))
    }
}

proof fn lemma_find_char_bounds(s: Seq<char>, c: char, from: int)
    requires
        0 <= from <= s.len(),
    ensures
        from <= find_char(s, c, from) <= s.len(),
        find_char(s, c, from) < s.len() ==> s[find_char(s, c, from)] == c,
        forall|j: int| from <= j < find_char(s, c, from) ==> s[j] != c,
    decreases s.len() - from,
{
    if from < s.len() && s[from] != c {
        lemma_find_char_bounds(s, c, from + 1);
    }
}

/// The channel pair that a browser reports after other cookies, as the
/// string `other; name=value`.
pub open spec fn cookies_then_pair(other: Seq<char>, channel: ReleaseChannel) -> Seq<char> {
    other + seq![';', ' '] + cookie_pair(channel)
}

proof fn lemma_pair_value_of_pair(channel: ReleaseChannel)
    ensures
        pair_value(trim(seq![' '] + cookie_pair(channel))) == Some(channel_name(channel)),
{
    let p = cookie_pair(channel);
    let q = seq![' '] + p;
    assert(q.drop_first() =~= p);
    assert(is_white_space(q[0]));
    assert(!is_white_space(p[0]));
    assert(trim_start(p) == p);
    assert(trim_start(q) == p);
    lemma_trim_unchanged(p);
    assert(trim(q) == p);
    assert forall|j: int| 0 <= j < 23 implies p[j] != '=' by {
        assert(p[j] == cookie_name()[j]);
    }
    lemma_find_char_at(p, '=', 0, 23);
    assert(p.take(23) =~= cookie_name());
    assert(p.skip(24) =~= channel_name(channel));
}

proof fn lemma_read_after_others(other: Seq<char>, channel: ReleaseChannel, tail: Seq<char>, from: int)
    requires
        0 <= from <= other.len(),
        no_channel_pair(other, from),
        tail.len() == 0 || tail[0] == ';',
    ensures
        channel_from(cookies_then_pair(other, channel) + tail, from) == channel,
    decreases other.len() - from,
{
    let c = cookies_then_pair(other, channel);
    let s = c + tail;
    let p = cookie_pair(channel);
    let n = other.len() as int;
    let k = c.len() as int;
    assert(k == n + 2 + p.len());
    assert(s[n] == ';');
    assert forall|j: int| 0 <= j < n implies s[j] == other[j] by {
        assert(s[j] == c[j]);
    }
    lemma_find_char_bounds(other, ';', from);
    let e = find_char(other, ';', from);
    lemma_find_char_range(other, ';', from);
    if e < n {
        lemma_find_char_at(s, ';', from, e);
        assert(s.subrange(from, e) =~= other.subrange(from, e));
        assert(pair_value(trim(other.subrange(from, e))) is None);
        assert(no_channel_pair(other, e + 1));
        lemma_read_after_others(other, channel, tail, e + 1);
        assert(find_char(s, ';', from) == e);
        assert(channel_from(s, from) == channel_from(s, e + 1));
    } else {
        lemma_find_char_at(s, ';', from, n);
        assert(s.subrange(from, n) =~= other.subrange(from, n));
        // the pair after the separator
        let m = n + 1;
        assert forall|j: int| m <= j < k implies s[j] != ';' by {
            assert(s[j] == c[j]);
            if j > m {
                assert(c[j] == p[j - m - 1]);
                if j - m - 1 < 23 {
                    assert(p[j - m - 1] == cookie_name()[j - m - 1]);
                } else if j - m - 1 > 23 {
                    assert(p[j - m - 1] == channel_name(channel)[j - m - 1 - 24]);
                }
            }
        }
        if tail.len() == 0 {
            assert(s =~= c);
            lemma_find_char_absent(s, ';', m);
        } else {
            assert(s[k] == tail[0]);
            lemma_find_char_at(s, ';', m, k);
        }
        assert(find_char(s, ';', m) == k);
        assert(s.subrange(m, k) =~= seq![' '] + p);
        lemma_pair_value_of_pair(channel);
        if channel == ReleaseChannel::Stable {
            assert(channel_name(channel)[0] != channel_name(ReleaseChannel::Preview)[0]);
        }
        assert(channel_from(s, m) == channel);
        assert(pair_value(trim(other.subrange(from, n))) is None);
        assert(find_char(s, ';', from) == n);
        assert(channel_from(s, from) == channel_from(s, m));
    }
}

/// Reading back a channel's pair after other cookies that do not name the
/// channel cookie (as a browser reports what was stored) gives the channel.
pub proof fn law_pair_after_other_cookies_round_trip(other: Seq<char>, channel: ReleaseChannel)
    requires
        no_channel_pair(other, 0),
    ensures
        parse_cookie_spec(cookies_then_pair(other, channel)) == channel,
{
    let empty = Seq::<char>::empty();
    lemma_read_after_others(other, channel, empty, 0);
    assert(cookies_then_pair(other, channel) + empty =~= cookies_then_pair(other, channel));
}

/// The string a browser reports with a channel's pair between other cookies:
/// `before; name=value; after`.
pub open spec fn cookies_around_pair(before: Seq<char>, channel: ReleaseChannel, after: Seq<char>) -> Seq<char> {
    cookies_then_pair(before, channel) + seq![';', ' '] + after
}

/// Reading back a channel's pair between other cookies, where those before it
/// do not name the channel cookie, gives the channel, whatever follows.
pub proof fn law_pair_among_other_cookies_round_trip(before: Seq<char>, channel: ReleaseChannel, after: Seq<char>)
    requires
        no_channel_pair(before, 0),
    ensures
        parse_cookie_spec(cookies_around_pair(before, channel, after)) == channel,
{
    let tail = seq![';', ' '] + after;
    lemma_read_after_others(before, channel, tail, 0);
    assert(cookies_around_pair(before, channel, after) =~= cookies_then_pair(before, channel) + tail);
}

/// Reading back a channel's pair that comes first, before any other cookies,
/// gives the channel.
pub proof fn law_pair_before_other_cookies_round_trip(channel: ReleaseChannel, after: Seq<char>)
    ensures
        parse_cookie_spec(cookie_pair(channel) + seq![';', ' '] + after) == channel,
{
    let s = cookie_pair(channel) + seq![';', ' '] + after;
    let n = cookie_pair(channel).len() as int;
    assert(s.take(n) =~= cookie_pair(channel));
    assert(s[n] == ';');
    lemma_pair_decides(s, channel);
}

/// Switching channels twice returns to the first channel, and a switch always
/// changes the channel.
pub proof fn law_toggle_involution(channel: ReleaseChannel)
    ensures
        other_channel(other_channel(channel)) == channel,
        other_channel(channel) != channel,
{
}

/// A cookie string without the release channel pair selects the stable channel.
pub proof fn law_missing_cookie_is_stable(cookie: Seq<char>)
    requires
        forall|i: int| 0 <= i <= cookie.len() - 23 ==> #[trigger] cookie.subrange(i, i + 23) != cookie_name(),
    ensures
        parse_cookie_spec(cookie) == ReleaseChannel::Stable,
{
    lemma_missing_from(cookie, 0);
}

proof fn lemma_missing_from(cookie: Seq<char>, from: int)
    requires
        0 <= from,
        forall|i: int| 0 <= i <= cookie.len() - 23 ==> #[trigger] cookie.subrange(i, i + 23) != cookie_name(),
    ensures
        channel_from(cookie, from) == ReleaseChannel::Stable,
    decreases cookie.len() - from,
{
    if from <= cookie.len() {
        let e = find_char(cookie, ';', from);
        lemma_find_char_range(cookie, ';', from);
        let seg = cookie.subrange(from, e);
        let t = trim(seg);
        lemma_trim_is_slice(seg);
        let a = choose|a: int| 0 <= a && a + t.len() <= seg.len() && t == #[trigger] seg.subrange(a, a + t.len());
        let k = find_char(t, '=', 0);
        lemma_find_char_range(t, '=', 0);
        if k < t.len() && t.take(k) == cookie_name() {
            assert(cookie_name().len() == 23);
            assert(t.take(k).len() == k);
            assert(k == 23);
            assert forall|j: int| 0 <= j < 23 implies cookie.subrange(from + a, from + a + 23)[j] == t.take(k)[j] by {
                assert(t[j] == seg.subrange(a, a + t.len())[j]);
                assert(seg[a + j] == cookie[from + a + j]);
            }
            assert(cookie.subrange(from + a, from + a + 23) =~= t.take(k));
            assert(0 <= from + a <= cookie.len() - 23);
            assert(false);
        }
        if e < cookie.len() {
            lemma_missing_from(cookie, e + 1);
        }
    }
}

proof fn lemma_trim_start_is_suffix(s: Seq<char>)
    ensures
        exists|a: int| 0 <= a <= s.len() && trim_start(s) == s.subrange(a, s.len() as int),
    decreases s.len(),
{
    if s.len() > 0 && is_white_space(s[0]) {
        lemma_trim_start_is_suffix(s.drop_first());
        let a = choose|a: int| 0 <= a <= s.drop_first().len() && trim_start(s.drop_first()) == s.drop_first().subrange(a, s.drop_first().len() as int);
        assert(s.drop_first().subrange(a, s.drop_first().len() as int) =~= s.subrange(a + 1, s.len() as int));
    } else {
        assert(s.subrange(0, s.len() as int) =~= s);
    }
}

proof fn lemma_trim_end_is_prefix(s: Seq<char>)
    ensures
        exists|b: int| 0 <= b <= s.len() && trim_end(s) == s.subrange(0, b),
    decreases s.len(),
{
    if s.len() > 0 && is_white_space(s.last()) {
        lemma_trim_end_is_prefix(s.drop_last());
        let b = choose|b: int| 0 <= b <= s.drop_last().len() && trim_end(s.drop_last()) == s.drop_last().subrange(0, b);
        assert(s.drop_last().subrange(0, b) =~= s.subrange(0, b));
    } else {
        assert(s.subrange(0, s.len() as int) =~= s);
    }
}

proof fn lemma_trim_is_slice(s: Seq<char>)
    ensures
        exists|a: int| 0 <= a && a + trim(s).len() <= s.len() && trim(s) == #[trigger] s.subrange(a, a + trim(s).len()),
{
    lemma_trim_start_is_suffix(s);
    let a = choose|a: int| 0 <= a <= s.len() && trim_start(s) == s.subrange(a, s.len() as int);
    let ts = trim_start(s);
    lemma_trim_end_is_prefix(ts);
    let b = choose|b: int| 0 <= b <= ts.len() && trim_end(ts) == ts.subrange(0, b);
    assert(ts.subrange(0, b) =~= s.subrange(a, a + b));
    assert(trim(s) == s.subrange(a, a + b));
    assert(trim(s).len() == b);
    assert(s.subrange(a, a + trim(s).len()) == trim(s));
}

} // verus!

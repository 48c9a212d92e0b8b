//! A member's link between the practices of a yatra and their own
//! practices: each yatra practice is fed by at most one of the member's
//! practices of the same kind, and a practice of the member feeds at most one
//! yatra practice.
use vstd::prelude::*;
use crate::chart_report::UserPractice;
use crate::colour_zones::ColourZonesConfig;
use crate::model::PracticeDataType;
use crate::text::str_equal;

verus! {

/// A practice of a yatra.
#[derive(Clone, Debug, PartialEq)]
pub struct YatraPractice {
    pub id: String,
    pub practice: String,
    pub data_type: PracticeDataType,
    pub colour_zones: Option<ColourZonesConfig>,
}

/// A yatra practice and the member's practice that feeds it, if any.
#[derive(Clone, Debug, PartialEq)]
pub struct YatraUserPractice {
    pub yatra_practice: YatraPractice,
    pub user_practice: Option<String>,
}

/// The links being edited, and the member's practices that feed some yatra
/// practice (each once).
pub struct PracticeMapping {
    pub entries: Vec<YatraUserPractice>,
    pub mapped: Vec<String>,
}

/// The texts that a vector of strings holds, as a set.
pub open spec fn name_set(v: Seq<String>) -> Set<Seq<char>> {
    Set::new(|s: Seq<char>| exists|j: int| 0 <= j < v.len() && (#[trigger] v[j])@ == s)
}

/// Whether no text occurs twice.
pub open spec fn distinct_names(v: Seq<String>) -> bool {
    forall|a: int, b: int| 0 <= a < b < v.len() ==> (#[trigger] v[a])@ != (#[trigger] v[b])@
}

/// Whether the link is fed by the member's practice `s`.
pub open spec fn feeds(e: YatraUserPractice, s: Seq<char>) -> bool {
    e.user_practice matches Some(u) && u@ == s
}

/// The member's practices that feed some yatra practice.
pub open spec fn chosen_set(entries: Seq<YatraUserPractice>) -> Set<Seq<char>> {
    Set::new(|s: Seq<char>| exists|i: int| 0 <= i < entries.len() && #[trigger] feeds(entries[i], s))
}

/// Whether no practice of the member feeds two yatra practices.
pub open spec fn unique_feeds(entries: Seq<YatraUserPractice>) -> bool {
    forall|a: int, b: int, s: Seq<char>| 0 <= a < b < entries.len() && #[trigger] feeds(entries[a], s) && #[trigger] feeds(entries[b], s) ==> false
}

/// The index of the first link of the yatra practice named `name`.
pub open spec fn entry_index(entries: Seq<YatraUserPractice>, name: Seq<char>) -> Option<int>
    decreases entries.len(),
{
    if entries.len() == 0 {
        None
    } else {
        match entry_index(entries.drop_last(), name) {
            Some(i) => Some(i),
            None => if entries.last().yatra_practice.practice@ == name { Some(entries.len() - 1) } else { None },
        }
    }
}

proof fn lemma_entry_index_step(entries: Seq<YatraUserPractice>, name: Seq<char>, i: int)
    requires
        0 <= i < entries.len(),
    ensures
        entry_index(entries.take(i + 1), name) == match entry_index(entries.take(i), name) {
            Some(j) => Some(j),
            None => if entries[i].yatra_practice.practice@ == name { Some(i) } else { None },
        },
{
    assert(entries.take(i + 1).drop_last() =~= entries.take(i));
}

proof fn lemma_entry_index_settled(entries: Seq<YatraUserPractice>, name: Seq<char>, n: int)
    requires
        0 <= n <= entries.len(),
        entry_index(entries.take(n), name) is Some,
    ensures
        entry_index(entries, name) == entry_index(entries.take(n), name),
    decreases entries.len() - n,
{
    if n < entries.len() {
        lemma_entry_index_step(entries, name, n);
        lemma_entry_index_settled(entries, name, n + 1);
    } else {
        assert(entries.take(n) =~= entries);
    }
}

proof fn lemma_entry_index_range(entries: Seq<YatraUserPractice>, name: Seq<char>)
    ensures
        entry_index(entries, name) matches Some(i) ==> 0 <= i < entries.len() && entries[i].yatra_practice.practice@ == name,
        entry_index(entries, name) is None ==> forall|j: int| 0 <= j < entries.len() ==> (#[trigger] entries[j]).yatra_practice.practice@ != name,
    decreases entries.len(),
{
    if entries.len() > 0 {
        lemma_entry_index_range(entries.drop_last(), name);
        assert forall|j: int| 0 <= j < entries.len() - 1 implies entries.drop_last()[j] == #[trigger] entries[j] by {}
    }
}

fn find_entry(entries: &Vec<YatraUserPractice>, name: &str) -> (r: Option<usize>)
    ensures
        r == match entry_index(entries@, name@) {
            Some(i) => Some(i as usize),
            None => None::<usize>,
        },
{
    let mut i: usize = 0;
    while i < entries.len()
        invariant
            i <= entries@.len(),
            entry_index(entries@.take(i as int), name@) is None,
        decreases entries@.len() - i,
    {
        proof { lemma_entry_index_step(entries@, name@, i as int); }
        if str_equal(entries[i].yatra_practice.practice.as_str(), name) {
            proof { lemma_entry_index_settled(entries@, name@, i + 1); }
            return Some(i);
        }
        i += 1;
    }
    assert(entries@.take(entries@.len() as int) =~= entries@);
    None
}

fn names_contain(v: &Vec<String>, name: &str) -> (r: bool)
    ensures
        r == name_set(v@).contains(name@),
{
    let mut i: usize = 0;
    while i < v.len()
        invariant
            i <= v@.len(),
            forall|j: int| 0 <= j < i ==> (#[trigger] v@[j])@ != name@,
        decreases v@.len() - i,
    {
        if str_equal(v[i].as_str(), name) {
            assert(name_set(v@).contains(name@));
            return true;
        }
        i += 1;
    }
    false
}

/// The member's practices in `v` other than `name`, in order.
fn without_name(v: &Vec<String>, name: &str) -> (r: Vec<String>)
    requires
        distinct_names(v@),
    ensures
        distinct_names(r@),
        name_set(r@) == name_set(v@).remove(name@),
{
    let mut out: Vec<String> = Vec::new();
    let mut i: usize = 0;
    while i < v.len()
        invariant
            i <= v@.len(),
            distinct_names(v@),
            distinct_names(out@),
            forall|k: int| 0 <= k < out@.len() ==> exists|j: int| 0 <= j < i && (#[trigger] out@[k])@ == (#[trigger] v@[j])@,
            forall|j: int| 0 <= j < i && (#[trigger] v@[j])@ != name@ ==> exists|k: int| 0 <= k < out@.len() && (#[trigger] out@[k])@ == v@[j]@,
            forall|k: int| 0 <= k < out@.len() ==> (#[trigger] out@[k])@ != name@,
        decreases v@.len() - i,
    {
        if !str_equal(v[i].as_str(), name) {
            let ghost before = out@;
            let s = v[i].clone();
            out.push(s);
            proof {
                assert(out@[before.len() as int] == s);
                assert forall|a: int, b: int| 0 <= a < b < out@.len() implies (#[trigger] out@[a])@ != (#[trigger] out@[b])@ by {
                    if b == before.len() {
                        let j = choose|j: int| 0 <= j < i && out@[a]@ == v@[j]@;
                        assert(v@[j]@ != v@[i as int]@);
                    } else {
                        assert(out@[a] == before[a]);
                        assert(out@[b] == before[b]);
                    }
                }
                assert forall|k: int| 0 <= k < out@.len() implies exists|j: int| 0 <= j < i + 1 && (#[trigger] out@[k])@ == (#[trigger] v@[j])@ by {
                    if k == before.len() {
                        assert(out@[k]@ == v@[i as int]@);
                    } else {
                        assert(out@[k] == before[k]);
                    }
                }
                assert forall|j: int| 0 <= j < i + 1 && (#[trigger] v@[j])@ != name@ implies exists|k: int| 0 <= k < out@.len() && (#[trigger] out@[k])@ == v@[j]@ by {
                    if j == i {
                        assert(out@[before.len() as int]@ == v@[j]@);
                    } else {
                        let k = choose|k: int| 0 <= k < before.len() && before[k]@ == v@[j]@;
                        assert(out@[k] == before[k]);
                    }
                }
            }
        }
        i += 1;
    }
    proof {
        assert forall|s: Seq<char>| name_set(out@).contains(s) == name_set(v@).remove(name@).contains(s) by {
            if name_set(out@).contains(s) {
                let k = choose|k: int| 0 <= k < out@.len() && (#[trigger] out@[k])@ == s;
                let j = choose|j: int| 0 <= j < v@.len() && (#[trigger] out@[k])@ == (#[trigger] v@[j])@;
                assert(name_set(v@).contains(s));
            }
            if name_set(v@).remove(name@).contains(s) {
                let j = choose|j: int| 0 <= j < v@.len() && (#[trigger] v@[j])@ == s;
                let k = choose|k: int| 0 <= k < out@.len() && (#[trigger] out@[k])@ == v@[j]@;
                assert(name_set(out@).contains(s));
            }
        }
        assert(name_set(out@) =~= name_set(v@).remove(name@));
    }
    out
}

impl PracticeMapping {
    /// Whether each mapped practice is listed once.
    pub open spec fn wf(&self) -> bool {
        distinct_names(self.mapped@)
    }

    /// The links as the server gave them, with the member's practices they use.
    pub fn new(entries: Vec<YatraUserPractice>) -> (r: PracticeMapping)
        ensures
            r.entries@ == entries@,
            r.wf(),
            name_set(r.mapped@) == chosen_set(entries@),
    {
        let mut mapped: Vec<String> = Vec::new();
        let mut i: usize = 0;
        while i < entries.len()
            invariant
                i <= entries@.len(),
                distinct_names(mapped@),
                name_set(mapped@) == chosen_set(entries@.take(i as int)),
            decreases entries@.len() - i,
        {
            let ghost before = mapped@;
            proof {
                assert forall|s: Seq<char>| #[trigger] chosen_set(entries@.take(i + 1)).contains(s) == (chosen_set(entries@.take(i as int)).contains(s)
                    || feeds(entries@[i as int], s)) by {
                    if chosen_set(entries@.take(i + 1)).contains(s) {
                        let k = choose|k: int| 0 <= k < i + 1 && #[trigger] feeds(entries@.take(i + 1)[k], s);
                        if k < i {
                            assert(entries@.take(i as int)[k] == entries@.take(i + 1)[k]);
                        }
                    }
                    if chosen_set(entries@.take(i as int)).contains(s) {
                        let k = choose|k: int| 0 <= k < i && #[trigger] feeds(entries@.take(i as int)[k], s);
                        assert(entries@.take(i as int)[k] == entries@.take(i + 1)[k]);
                    }
                    if feeds(entries@[i as int], s) {
                        assert(entries@.take(i + 1)[i as int] == entries@[i as int]);
                    }
                }
            }
            match &entries[i].user_practice {
                Some(up) => {
                    if !names_contain(&mapped, up.as_str()) {
                        let u = up.clone();
                        mapped.push(u);
                        proof {
                            assert(mapped@[before.len() as int] == u);
                            assert forall|a: int, b: int| 0 <= a < b < mapped@.len() implies (#[trigger] mapped@[a])@ != (#[trigger] mapped@[b])@ by {
                                if b == before.len() {
                                    assert(mapped@[a] == before[a]);
                                    assert(name_set(before).contains(before[a]@));
                                } else {
                                    assert(mapped@[a] == before[a]);
                                    assert(mapped@[b] == before[b]);
                                }
                            }
                            assert forall|s: Seq<char>| name_set(mapped@).contains(s) == name_set(before).insert(u@).contains(s) by {
                                if name_set(mapped@).contains(s) {
                                    let k = choose|k: int| 0 <= k < mapped@.len() && (#[trigger] mapped@[k])@ == s;
                                    if k < before.len() {
                                        assert(mapped@[k] == before[k]);
                                    }
                                }
                                if name_set(before).contains(s) {
                                    let k = choose|k: int| 0 <= k < before.len() && (#[trigger] before[k])@ == s;
                                    assert(mapped@[k] == before[k]);
                                }
                            }
                        }
                    }
                    assert(name_set(mapped@) =~= chosen_set(entries@.take(i + 1)));
                },
                None => {
                    assert(name_set(mapped@) =~= chosen_set(entries@.take(i + 1)));
                },
            }
            i += 1;
        }
        assert(entries@.take(entries@.len() as int) =~= entries@);
        PracticeMapping { entries, mapped }
    }
}

/// What a link holds once `up` is chosen: nothing for an empty choice.
pub open spec fn choice(up: String) -> Option<String> {
    if up@.len() == 0 { None } else { Some(up) }
}

/// The mapped practices once `up` is chosen in place of `old`: `up` is
/// added (unless empty), then `old` is taken out.
pub open spec fn mapped_after(set: Set<Seq<char>>, up: Seq<char>, old: Option<String>) -> Set<Seq<char>> {
    let with_new = if up.len() > 0 { set.insert(up) } else { set };
    match old {
        Some(o) => with_new.remove(o@),
        None => with_new,
    }
}

impl PracticeMapping {
    /// Feeds the yatra practice named `yatra_practice` with the member's
    /// practice `user_practice` (none when it is empty).
    pub fn set_user_practice(&mut self, yatra_practice: &str, user_practice: String)
        requires
            old(self).wf(),
            entry_index(old(self).entries@, yatra_practice@) is Some,
        ensures
            ({
                let i = entry_index(old(self).entries@, yatra_practice@)->0;
                &&& final(self).entries@ == old(self).entries@.update(i, YatraUserPractice {
                    yatra_practice: old(self).entries@[i].yatra_practice,
                    user_practice: choice(user_practice),
                })
                &&& final(self).wf()
                &&& name_set(final(self).mapped@) == mapped_after(name_set(old(self).mapped@), user_practice@, old(self).entries@[i].user_practice)
            }),
    {
        proof { lemma_entry_index_range(self.entries@, yatra_practice@); }
        let n = self.entries.len();
        let i = match find_entry(&self.entries, yatra_practice) {
            Some(i) => i,
            None => { return; },
        };
        let ghost start = name_set(self.mapped@);
        let empty = user_practice.as_str().is_empty();
        if !empty && !names_contain(&self.mapped, user_practice.as_str()) {
            let ghost before = self.mapped@;
            let u = user_practice.clone();
            self.mapped.push(u);
            proof {
                assert(self.mapped@[before.len() as int] == u);
                assert forall|a: int, b: int| 0 <= a < b < self.mapped@.len() implies (#[trigger] self.mapped@[a])@ != (#[trigger] self.mapped@[b])@ by {
                    assert(self.mapped@[a] == before[a]);
                    if b == before.len() {
                        assert(name_set(before).contains(before[a]@));
                    } else {
                        assert(self.mapped@[b] == before[b]);
                    }
                }
                assert forall|x: Seq<char>| name_set(self.mapped@).contains(x) == start.insert(user_practice@).contains(x) by {
                    if name_set(self.mapped@).contains(x) {
                        let k = choose|k: int| 0 <= k < self.mapped@.len() && (#[trigger] self.mapped@[k])@ == x;
                        if k < before.len() {
                            assert(self.mapped@[k] == before[k]);
                        }
                    }
                    if start.contains(x) {
                        let k = choose|k: int| 0 <= k < before.len() && (#[trigger] before[k])@ == x;
                        assert(self.mapped@[k] == before[k]);
                    }
                }
                assert(name_set(self.mapped@) =~= start.insert(user_practice@));
            }
        } else if !empty {
            assert(start.insert(user_practice@) =~= start);
        }
        let ghost with_new = name_set(self.mapped@);
        assert(with_new == if user_practice@.len() > 0 { start.insert(user_practice@) } else { start });
        let ghost old_entries = self.entries@;
        let mut e = self.entries.remove(i);
        assert(e == old_entries[i as int]);
        match &e.user_practice {
            Some(o) => {
                let rest = without_name(&self.mapped, o.as_str());
                self.mapped = rest;
            },
            None => {},
        }
        assert(name_set(self.mapped@) == mapped_after(start, user_practice@, old_entries[i as int].user_practice));
        let ghost yp = e.yatra_practice;
        e.user_practice = if empty { None } else { Some(user_practice) };
        assert(e == (YatraUserPractice { yatra_practice: yp, user_practice: choice(user_practice) }));
        self.entries.insert(i, e);
        assert(self.entries@ =~= old_entries.update(i as int, e));
    }

    /// Whether the member's practice `up` may feed link `e`: it has the
    /// link's kind and feeds no other link.
    pub open spec fn offered(up: UserPractice, e: YatraUserPractice, mapped: Set<Seq<char>>) -> bool {
        up.data_type == e.yatra_practice.data_type && (!mapped.contains(up.practice@) || feeds(e, up.practice@))
    }

    /// The indices of the first `n` practices of the member that may feed link `e`.
    pub open spec fn offered_indices(ups: Seq<UserPractice>, e: YatraUserPractice, mapped: Set<Seq<char>>, n: int) -> Seq<usize>
        decreases n,
    {
        if n <= 0 {
            Seq::empty()
        } else if Self::offered(ups[n - 1], e, mapped) {
            Self::offered_indices(ups, e, mapped, n - 1).push((n - 1) as usize)
        } else {
            Self::offered_indices(ups, e, mapped, n - 1)
        }
    }

    /// The member's practices (by index) that may feed the link at `idx`.
    pub fn options_for(&self, idx: usize, user_practices: &[UserPractice]) -> (r: Vec<usize>)
        requires
            idx < self.entries@.len(),
        ensures
            r@ == Self::offered_indices(user_practices@, self.entries@[idx as int], name_set(self.mapped@), user_practices@.len() as int),
    {
        let e = &self.entries[idx];
        let mut out: Vec<usize> = Vec::new();
        let mut i: usize = 0;
        while i < user_practices.len()
            invariant
                i <= user_practices@.len(),
                *e == self.entries@[idx as int],
                out@ == Self::offered_indices(user_practices@, *e, name_set(self.mapped@), i as int),
            decreases user_practices@.len() - i,
        {
            let up = &user_practices[i];
            if up.data_type == e.yatra_practice.data_type {
                let own = match &e.user_practice {
                    Some(u) => str_equal(u.as_str(), up.practice.as_str()),
                    None => false,
                };
                if own || !names_contain(&self.mapped, up.practice.as_str()) {
                    out.push(i);
                }
            }
            i += 1;
        }
        out
    }
}

/// Choosing for a yatra practice one of the member's practices that feeds no
/// link yet (or none) keeps the mapped practices equal to those the links
/// use, and keeps every practice feeding at most one link.
pub proof fn law_free_choice_keeps_mapping_consistent(
    entries: Seq<YatraUserPractice>,
    mapped: Set<Seq<char>>,
    yatra_practice: Seq<char>,
    up: String,
)
    requires
        mapped == chosen_set(entries),
        unique_feeds(entries),
        entry_index(entries, yatra_practice) is Some,
        up@.len() == 0 || !mapped.contains(up@),
    ensures
        ({
            let i = entry_index(entries, yatra_practice)->0;
            let after = entries.update(i, YatraUserPractice { yatra_practice: entries[i].yatra_practice, user_practice: choice(up) });
            &&& mapped_after(mapped, up@, entries[i].user_practice) == chosen_set(after)
            &&& unique_feeds(after)
        }),
{
    lemma_entry_index_range(entries, yatra_practice);
    let i = entry_index(entries, yatra_practice)->0;
    let new_e = YatraUserPractice { yatra_practice: entries[i].yatra_practice, user_practice: choice(up) };
    let after = entries.update(i, new_e);
    let lhs = mapped_after(mapped, up@, entries[i].user_practice);
    assert(after[i] == new_e);
    if entries[i].user_practice is Some {
        let o = entries[i].user_practice->0;
        assert(feeds(entries[i], o@));
        assert(mapped.contains(o@));
    }
    assert forall|x: Seq<char>| lhs.contains(x) implies chosen_set(after).contains(x) by {
        if up@.len() > 0 && x == up@ {
            assert(feeds(after[i], x));
        } else {
            assert(mapped.contains(x));
            let k = choose|k: int| 0 <= k < entries.len() && #[trigger] feeds(entries[k], x);
            if k == i {
                assert(false);
            }
            assert(after[k] == entries[k]);
            assert(feeds(after[k], x));
        }
    }
    assert forall|x: Seq<char>| chosen_set(after).contains(x) implies lhs.contains(x) by {
        let k = choose|k: int| 0 <= k < after.len() && #[trigger] feeds(after[k], x);
        if k != i {
            assert(after[k] == entries[k]);
            assert(feeds(entries[k], x));
            assert(mapped.contains(x));
            if feeds(entries[i], x) {
                if i < k {
                    assert(false);
                } else {
                    assert(false);
                }
            }
        } else {
            assert(up@.len() > 0 && x == up@);
        }
    }
    assert(lhs =~= chosen_set(after));
    assert forall|a: int, b: int, x: Seq<char>| 0 <= a < b < after.len() && #[trigger] feeds(after[a], x) && #[trigger] feeds(after[b], x) implies false by {
        if a == i {
            assert(feeds(entries[b], x));
            assert(mapped.contains(x));
        } else if b == i {
            assert(feeds(entries[a], x));
            assert(mapped.contains(x));
        } else {
            assert(feeds(entries[a], x) && feeds(entries[b], x));
        }
    }
}

/// Choosing for a link one of the practices it is offered, other than the
/// one it already has, keeps the mapped practices equal to those the links
/// use and keeps every practice feeding at most one link.
pub proof fn law_offered_choice_keeps_mapping_consistent(
    entries: Seq<YatraUserPractice>,
    mapped: Set<Seq<char>>,
    yatra_practice: Seq<char>,
    offered: UserPractice,
    up: String,
)
    requires
        mapped == chosen_set(entries),
        unique_feeds(entries),
        entry_index(entries, yatra_practice) is Some,
        PracticeMapping::offered(offered, entries[entry_index(entries, yatra_practice)->0], mapped),
        up@ == offered.practice@,
        !feeds(entries[entry_index(entries, yatra_practice)->0], up@),
    ensures
        ({
            let i = entry_index(entries, yatra_practice)->0;
            let after = entries.update(i, YatraUserPractice { yatra_practice: entries[i].yatra_practice, user_practice: choice(up) });
            &&& mapped_after(mapped, up@, entries[i].user_practice) == chosen_set(after)
            &&& unique_feeds(after)
        }),
{
    law_free_choice_keeps_mapping_consistent(entries, mapped, yatra_practice, up);
}

/// The icon shown for a practice of a kind.
pub fn practice_icon(data_type: PracticeDataType) -> (r: &'static str)
    ensures
        r@ == match data_type {
            PracticeDataType::Int => "icon-rounds"@,
            PracticeDataType::Bool => "icon-tick"@,
            PracticeDataType::Time => "icon-clock"@,
            PracticeDataType::Text => "icon-doc"@,
            PracticeDataType::Duration => "icon-clock"@,
        },
{
    match data_type {
        PracticeDataType::Int => "icon-rounds",
        PracticeDataType::Bool => "icon-tick",
        PracticeDataType::Time => "icon-clock",
        PracticeDataType::Text => "icon-doc",
        PracticeDataType::Duration => "icon-clock",
    }
}

} // verus!

//! Colour zones of a practice: the bounds that split its values into coloured
//! zones, their validation, and the sample values that preview each zone.
use vstd::prelude::*;
use crate::model::{PracticeEntryValue, value_lt, variant_rank};

verus! {

/// The colour of a zone.
#[derive(Clone, Copy, Debug, PartialEq, Eq, Structural)]
pub enum ZoneColour {
    Neutral,
    MutedRed,
    Red,
    Yellow,
    Green,
    DarkGreen,
}

/// Whether higher or lower values are better.
#[derive(Clone, Copy, Debug, PartialEq, Eq, Structural)]
pub enum BetterDirection {
    Higher,
    Lower,
}

/// The upper end (inclusive) of the zone of a colour; `None` while unset.
#[derive(Clone, Debug, PartialEq)]
pub struct Bound {
    pub to: Option<PracticeEntryValue>,
    pub colour: ZoneColour,
}

impl Bound {
    /// A bound of the given colour, with its upper end.
    pub fn new(to: Option<PracticeEntryValue>, colour: ZoneColour) -> (r: Bound)
        ensures
            r.to == to,
            r.colour == colour,
    {
        Bound { to, colour }
    }

    /// An unset red bound.
    pub fn default_red() -> (r: Bound)
        ensures
            r.to is None,
            r.colour == ZoneColour::Red,
    {
        Bound { to: None, colour: ZoneColour::Red }
    }

    /// An unset yellow bound.
    pub fn default_yellow() -> (r: Bound)
        ensures
            r.to is None,
            r.colour == ZoneColour::Yellow,
    {
        Bound { to: None, colour: ZoneColour::Yellow }
    }
}

/// How the values of a practice are coloured.
#[derive(Clone, Debug, PartialEq)]
pub struct ColourZonesConfig {
    pub better_direction: BetterDirection,
    pub bounds: Vec<Bound>,
    pub no_value_colour: ZoneColour,
    pub best_colour: Option<ZoneColour>,
}

impl ColourZonesConfig {
    /// No zones: higher is better, no bounds, neutral colour for missing values.
    pub fn default_config() -> (r: ColourZonesConfig)
        ensures
            r.better_direction == BetterDirection::Higher,
            r.bounds@.len() == 0,
            r.no_value_colour == ZoneColour::Neutral,
            r.best_colour is None,
    {
        ColourZonesConfig {
            better_direction: BetterDirection::Higher,
            bounds: Vec::new(),
            no_value_colour: ZoneColour::Neutral,
            best_colour: None,
        }
    }

    /// Sets the better direction; the first bound becomes red when higher
    /// values are better and green when lower values are better.
    pub fn set_better_direction(&mut self, direction: BetterDirection)
        ensures
            final(self).better_direction == direction,
            final(self).no_value_colour == old(self).no_value_colour,
            final(self).best_colour == old(self).best_colour,
            final(self).bounds@.len() == old(self).bounds@.len(),
            old(self).bounds@.len() > 0 ==> final(self).bounds@[0] == (Bound {
                to: old(self).bounds@[0].to,
                colour: if direction == BetterDirection::Higher { ZoneColour::Red } else { ZoneColour::Green },
            }),
            forall|i: int| 1 <= i < old(self).bounds@.len() ==> final(self).bounds@[i] == old(self).bounds@[i],
    {
        self.better_direction = direction;
        if self.bounds.len() > 0 {
            let colour = if direction == BetterDirection::Higher {
                ZoneColour::Red
            } else {
                ZoneColour::Green
            };
            let mut first = self.bounds.remove(0);
            first.colour = colour;
            self.bounds.insert(0, first);
        }
    }
}

/// The configuration chosen by the number of zones: three zones have a red
/// and a yellow bound, two zones a red bound, any other number none.
pub fn colour_zones_for_count(num_zones: usize) -> (r: ColourZonesConfig)
    ensures
        r.better_direction == BetterDirection::Higher,
        r.no_value_colour == ZoneColour::Neutral,
        r.best_colour is None,
        num_zones == 3 ==> r.bounds@.len() == 2 && r.bounds@[0] == Bound::default_red_spec()
            && r.bounds@[1] == Bound::default_yellow_spec(),
        num_zones == 2 ==> r.bounds@.len() == 1 && r.bounds@[0] == Bound::default_red_spec(),
        num_zones != 2 && num_zones != 3 ==> r.bounds@.len() == 0,
{
    let mut config = ColourZonesConfig::default_config();
    if num_zones == 3 {
        config.bounds.push(Bound::default_red());
        config.bounds.push(Bound::default_yellow());
    } else if num_zones == 2 {
        config.bounds.push(Bound::default_red());
    }
    config
}

impl Bound {
    pub open spec fn default_red_spec() -> Bound {
        Bound { to: None, colour: ZoneColour::Red }
    }

    pub open spec fn default_yellow_spec() -> Bound {
        Bound { to: None, colour: ZoneColour::Yellow }
    }
}

/// The index of the first bound of colour `colour` among the first `n` bounds.
pub open spec fn first_colour_index(bounds: Seq<Bound>, colour: ZoneColour, n: int) -> Option<int>
    decreases n,
{
    if n <= 0 {
        None
    } else {
        match first_colour_index(bounds, colour, n - 1) {
            Some(i) => Some(i),
            None => if bounds[n - 1].colour == colour { Some(n - 1) } else { None },
        }
    }
}

/// A bound's value is valid when it is greater than the value of the bound
/// before it; a bound that is first, unset, or follows an unset bound is valid.
pub open spec fn bound_value_valid(bounds: Seq<Bound>, colour: ZoneColour) -> bool {
    match first_colour_index(bounds, colour, bounds.len() as int) {
        None => true,
        Some(i) => i == 0 || match (bounds[i].to, bounds[i - 1].to) {
            (Some(cur), Some(prev)) => value_lt(prev, cur),
            _ => true,
        },
    }
}

proof fn lemma_first_colour_index_range(bounds: Seq<Bound>, colour: ZoneColour, n: int)
    ensures
        first_colour_index(bounds, colour, n) matches Some(i) ==> 0 <= i < n && bounds[i].colour == colour,
        first_colour_index(bounds, colour, n) is None ==> forall|j: int| 0 <= j < n ==> bounds[j].colour != colour,
    decreases n,
{
    if n > 0 {
        lemma_first_colour_index_range(bounds, colour, n - 1);
    }
}

/// Whether the bound of colour `colour` holds a value greater than the bound
/// before it (the check shown when a zone's bound is edited).
pub fn is_bound_value_valid(bounds: &[Bound], colour: ZoneColour) -> (r: bool)
    ensures
        r == bound_value_valid(bounds@, colour),
{
    let mut i: usize = 0;
    while i < bounds.len()
        invariant
            i <= bounds@.len(),
            first_colour_index(bounds@, colour, i as int) is None,
        decreases bounds@.len() - i,
    {
        if bounds[i].colour == colour {
            assert(first_colour_index(bounds@, colour, i + 1) == Some(i as int));
            proof {
                lemma_first_colour_index_stable(bounds@, colour, i + 1, bounds@.len() as int);
            }
            if i == 0 {
                return true;
            }
            match (&bounds[i].to, &bounds[i - 1].to) {
                (Some(cur), Some(prev)) => {
                    return cur.gt(prev);
                },
                _ => {
                    return true;
                },
            }
        }
        i += 1;
    }
    true
}

proof fn lemma_first_colour_index_stable(bounds: Seq<Bound>, colour: ZoneColour, n: int, m: int)
    requires
        n <= m,
        first_colour_index(bounds, colour, n) is Some,
    ensures
        first_colour_index(bounds, colour, m) == first_colour_index(bounds, colour, n),
    decreases m - n,
{
    if n < m {
        lemma_first_colour_index_stable(bounds, colour, n, m - 1);
    }
}

impl ColourZonesConfig {
    /// Sets the upper end of the first bound of colour `colour`; nothing
    /// changes when no bound has that colour.
    pub fn set_bound_value(&mut self, colour: ZoneColour, value: Option<PracticeEntryValue>)
        ensures
            final(self).better_direction == old(self).better_direction,
            final(self).no_value_colour == old(self).no_value_colour,
            final(self).best_colour == old(self).best_colour,
            final(self).bounds@ == (match first_colour_index(old(self).bounds@, colour, old(self).bounds@.len() as int) {
                None => old(self).bounds@,
                Some(i) => old(self).bounds@.update(i, Bound { to: value, colour }),
            }),
    {
        let ghost start = self.bounds@;
        let mut i: usize = 0;
        while i < self.bounds.len()
            invariant
                i <= self.bounds@.len(),
                self.bounds@ == start,
                self.better_direction == old(self).better_direction,
                self.no_value_colour == old(self).no_value_colour,
                self.best_colour == old(self).best_colour,
                start == old(self).bounds@,
                first_colour_index(start, colour, i as int) is None,
            decreases self.bounds@.len() - i,
        {
            if self.bounds[i].colour == colour {
                assert(first_colour_index(start, colour, i + 1) == Some(i as int));
                proof {
                    lemma_first_colour_index_stable(start, colour, i + 1, start.len() as int);
                }
                let mut bound = self.bounds.remove(i);
                bound.to = value;
                self.bounds.insert(i, bound);
                assert(self.bounds@ =~= start.update(i as int, Bound { to: value, colour }));
                return;
            }
            i += 1;
        }
        proof { lemma_first_colour_index_range(start, colour, start.len() as int); }
    }

    /// The number of zones to show as chosen: none without bounds, else one
    /// more than the bounds.
    pub fn zone_count_choice(&self) -> (r: usize)
        requires
            self.bounds@.len() < usize::MAX,
        ensures
            r == (if self.bounds@.len() == 0 { 0 } else { self.bounds@.len() + 1 }),
    {
        if self.bounds.len() == 0 { 0 } else { self.bounds.len() + 1 }
    }

    /// The zones kept with a practice when it is saved: only a configuration
    /// with bounds is kept.
    pub fn into_saved(self) -> (r: Option<ColourZonesConfig>)
        ensures
            r == (if self.bounds@.len() == 0 { None } else { Some(self) }),
    {
        if self.bounds.len() == 0 { None } else { Some(self) }
    }
}

/// Whether a practice's zones are switched on: it has zones with bounds.
pub fn zones_enabled(zones: Option<&ColourZonesConfig>) -> (r: bool)
    ensures
        r == (match zones {
            Some(z) => z.bounds@.len() > 0,
            None => false,
        }),
{
    match zones {
        Some(z) => z.bounds.len() > 0,
        None => false,
    }
}

/// Minutes since midnight of a time.
pub open spec fn minutes_of(h: u8, m: u8) -> int {
    h as int * 60 + m as int
}

/// The value halfway between two values of the same kind (rounded down);
/// `None` for other pairs.
pub open spec fn midpoint_spec(a: PracticeEntryValue, b: PracticeEntryValue) -> Option<PracticeEntryValue> {
    match (a, b) {
        (PracticeEntryValue::Int(x), PracticeEntryValue::Int(y)) => Some(
            PracticeEntryValue::Int(((x + y) / 2) as u16),
        ),
        (PracticeEntryValue::Duration(x), PracticeEntryValue::Duration(y)) => Some(
            PracticeEntryValue::Duration(((x + y) / 2) as u16),
        ),
        (PracticeEntryValue::Time { h: h1, m: m1 }, PracticeEntryValue::Time { h: h2, m: m2 }) => {
            let mid = (minutes_of(h1, m1) + minutes_of(h2, m2)) / 2;
            Some(PracticeEntryValue::Time { h: (mid / 60) as u8, m: (mid % 60) as u8 })
        },
        _ => None,
    }
}

/// Whether the midpoint of the two values can be computed without overflow.
pub open spec fn midpoint_fits(a: PracticeEntryValue, b: PracticeEntryValue) -> bool {
    match (a, b) {
        (PracticeEntryValue::Int(x), PracticeEntryValue::Int(y)) => x + y <= u16::MAX,
        (PracticeEntryValue::Duration(x), PracticeEntryValue::Duration(y)) => x + y <= u16::MAX,
        _ => true,
    }
}

/// The value one step above `v` (one more count, minute, or minute of the
/// day); `None` for booleans and text.
pub open spec fn just_above_spec(v: PracticeEntryValue) -> Option<PracticeEntryValue> {
    match v {
        PracticeEntryValue::Int(x) => Some(PracticeEntryValue::Int((x + 1) as u16)),
        PracticeEntryValue::Duration(x) => Some(PracticeEntryValue::Duration((x + 1) as u16)),
        PracticeEntryValue::Time { h, m } => {
            let t = minutes_of(h, m) + 1;
            Some(PracticeEntryValue::Time { h: (t / 60) as u8, m: (t % 60) as u8 })
        },
        _ => None,
    }
}

/// Whether the value one step above `v` can be computed without overflow.
pub open spec fn just_above_fits(v: PracticeEntryValue) -> bool {
    match v {
        PracticeEntryValue::Int(x) => x < u16::MAX,
        PracticeEntryValue::Duration(x) => x < u16::MAX,
        _ => true,
    }
}

/// The value halfway between `a` and `b`, when both are of the same numeric kind.
pub fn midpoint(a: &PracticeEntryValue, b: &PracticeEntryValue) -> (r: Option<PracticeEntryValue>)
    requires
        midpoint_fits(*a, *b),
    ensures
        r == midpoint_spec(*a, *b),
{
    match (a, b) {
        (PracticeEntryValue::Int(x), PracticeEntryValue::Int(y)) => {
            Some(PracticeEntryValue::Int((*x + *y) / 2))
        },
        (PracticeEntryValue::Duration(x), PracticeEntryValue::Duration(y)) => {
            Some(PracticeEntryValue::Duration((*x + *y) / 2))
        },
        (PracticeEntryValue::Time { h: h1, m: m1 }, PracticeEntryValue::Time { h: h2, m: m2 }) => {
            let t1 = (*h1 as u16) * 60 + (*m1 as u16);
            let t2 = (*h2 as u16) * 60 + (*m2 as u16);
            let mid = (t1 + t2) / 2;
            Some(PracticeEntryValue::Time { h: (mid / 60) as u8, m: (mid % 60) as u8 })
        },
        _ => None,
    }
}

/// The value one step above `v`, when `v` is numeric.
pub fn just_above(v: &PracticeEntryValue) -> (r: Option<PracticeEntryValue>)
    requires
        just_above_fits(*v),
    ensures
        r == just_above_spec(*v),
{
    match v {
        PracticeEntryValue::Int(x) => Some(PracticeEntryValue::Int(*x + 1)),
        PracticeEntryValue::Duration(x) => Some(PracticeEntryValue::Duration(*x + 1)),
        PracticeEntryValue::Time { h, m } => {
            let t = (*h as u16) * 60 + (*m as u16) + 1;
            Some(PracticeEntryValue::Time { h: (t / 60) as u8, m: (t % 60) as u8 })
        },
        _ => None,
    }
}

/// The values of the bounds that are set, in order.
pub open spec fn concrete_values(bounds: Seq<Bound>) -> Seq<PracticeEntryValue>
    decreases bounds.len(),
{
    if bounds.len() == 0 {
        Seq::empty()
    } else {
        let rest = concrete_values(bounds.drop_last());
        match bounds.last().to {
            Some(v) => rest.push(v),
            None => rest,
        }
    }
}

/// The lower end the preview starts from, by the kind of the first set value:
/// zero for counts and durations, one minute past midnight for times.
pub open spec fn preview_start(v: PracticeEntryValue) -> Option<PracticeEntryValue> {
    match v {
        PracticeEntryValue::Int(_) => Some(PracticeEntryValue::Int(0)),
        PracticeEntryValue::Duration(_) => Some(PracticeEntryValue::Duration(0)),
        PracticeEntryValue::Time { .. } => Some(PracticeEntryValue::Time { h: 0, m: 1 }),
        _ => None,
    }
}

/// The value before the `k`-th set value: the start, then each set value in turn.
pub open spec fn prev_value(start: PracticeEntryValue, cs: Seq<PracticeEntryValue>, k: int) -> PracticeEntryValue {
    if k == 0 { start } else { cs[k - 1] }
}

pub open spec fn opt_seq(o: Option<PracticeEntryValue>) -> Seq<PracticeEntryValue> {
    match o {
        Some(v) => seq![v],
        None => Seq::empty(),
    }
}

/// The midpoints of each zone: between the value before each set value and it.
pub open spec fn zone_midpoints(start: PracticeEntryValue, cs: Seq<PracticeEntryValue>) -> Seq<PracticeEntryValue>
    decreases cs.len(),
{
    if cs.len() == 0 {
        Seq::empty()
    } else {
        zone_midpoints(start, cs.drop_last()) + opt_seq(
            midpoint_spec(prev_value(start, cs, cs.len() - 1), cs.last()),
        )
    }
}

/// One sample value per zone: the midpoint of each bounded zone, then a value
/// just above the last bound for the zone above it. Empty when no bound is set
/// or the first set value is not a count, duration or time.
pub open spec fn preview_values_spec(bounds: Seq<Bound>) -> Seq<PracticeEntryValue> {
    let cs = concrete_values(bounds);
    if cs.len() == 0 {
        Seq::empty()
    } else {
        match preview_start(cs[0]) {
            None => Seq::empty(),
            Some(start) => zone_midpoints(start, cs) + opt_seq(just_above_spec(cs.last())),
        }
    }
}

/// Whether computing the preview of `bounds` stays within the range of values.
pub open spec fn preview_fits(bounds: Seq<Bound>) -> bool {
    let cs = concrete_values(bounds);
    cs.len() > 0 ==> match preview_start(cs[0]) {
        None => true,
        Some(start) => {
            &&& forall|k: int| 0 <= k < cs.len() ==> #[trigger] midpoint_fits(prev_value(start, cs, k), cs[k])
            &&& just_above_fits(cs.last())
        },
    }
}

proof fn lemma_concrete_values_take(bounds: Seq<Bound>, i: int)
    requires
        0 <= i < bounds.len(),
    ensures
        concrete_values(bounds.take(i + 1)) == match bounds[i].to {
            Some(v) => concrete_values(bounds.take(i)).push(v),
            None => concrete_values(bounds.take(i)),
        },
{
    assert(bounds.take(i + 1).drop_last() =~= bounds.take(i));
}

proof fn lemma_concrete_values_prefix(bounds: Seq<Bound>, i: int, j: int)
    requires
        0 <= i <= j <= bounds.len(),
    ensures
        concrete_values(bounds.take(i)).len() <= concrete_values(bounds.take(j)).len(),
        forall|k: int| 0 <= k < concrete_values(bounds.take(i)).len()
            ==> concrete_values(bounds.take(j))[k] == concrete_values(bounds.take(i))[k],
    decreases j - i,
{
    if i < j {
        lemma_concrete_values_prefix(bounds, i, j - 1);
        lemma_concrete_values_take(bounds, j - 1);
    }
}

/// The sample values shown to preview the colour of each zone.
pub fn preview_values(bounds: &[Bound]) -> (out: Vec<PracticeEntryValue>)
    requires
        preview_fits(bounds@),
    ensures
        out@ == preview_values_spec(bounds@),
{
    let ghost all = concrete_values(bounds@);
    proof {
        assert(bounds@.take(bounds@.len() as int) =~= bounds@);
    }
    // The first set value decides the kind of the preview.
    let mut first: usize = 0;
    while first < bounds.len() && bounds[first].to.is_none()
        invariant
            first <= bounds@.len(),
            concrete_values(bounds@.take(first as int)).len() == 0,
        decreases bounds@.len() - first,
    {
        proof { lemma_concrete_values_take(bounds@, first as int); }
        first += 1;
    }
    if first == bounds.len() {
        return Vec::new();
    }
    proof {
        lemma_concrete_values_take(bounds@, first as int);
        lemma_concrete_values_prefix(bounds@, first + 1, bounds@.len() as int);
    }
    let mut prev = match &bounds[first].to {
        Some(PracticeEntryValue::Int(_)) => PracticeEntryValue::Int(0),
        Some(PracticeEntryValue::Duration(_)) => PracticeEntryValue::Duration(0),
        Some(PracticeEntryValue::Time { .. }) => PracticeEntryValue::Time { h: 0, m: 1 },
        _ => {
            return Vec::new();
        },
    };
    let ghost start = prev;
    assert(preview_start(all[0]) == Some(start));
    let mut out: Vec<PracticeEntryValue> = Vec::new();
    let mut i: usize = 0;
    while i < bounds.len()
        invariant
            i <= bounds@.len(),
            all == concrete_values(bounds@),
            all.len() > 0,
            preview_start(all[0]) == Some(start),
            preview_fits(bounds@),
            bounds@.take(bounds@.len() as int) == bounds@,
            out@ == zone_midpoints(start, concrete_values(bounds@.take(i as int))),
            prev == prev_value(start, concrete_values(bounds@.take(i as int)), concrete_values(bounds@.take(i as int)).len() as int),
        decreases bounds@.len() - i,
    {
        proof {
            lemma_concrete_values_take(bounds@, i as int);
            lemma_concrete_values_prefix(bounds@, i + 1, bounds@.len() as int);
        }
        let ghost cs = concrete_values(bounds@.take(i as int));
        match &bounds[i].to {
            Some(to) => {
                let ghost cs2 = cs.push(*to);
                assert(cs2.drop_last() =~= cs);
                assert(cs2[cs.len() as int] == all[cs.len() as int]);
                assert(prev_value(start, all, cs.len() as int) == prev);
                assert(midpoint_fits(prev_value(start, all, cs.len() as int), all[cs.len() as int]));
                let mid = midpoint(&prev, to);
                match mid {
                    Some(v) => { out.push(v); },
                    None => {},
                }
                assert(out@ =~= zone_midpoints(start, cs2));
                prev = to.copy();
            },
            None => {},
        }
        i += 1;
    }
    assert(all.last() == prev);
    assert(just_above_fits(prev));
    match just_above(&prev) {
        Some(v) => { out.push(v); },
        None => {},
    }
    proof {
        assert(out@ =~= preview_values_spec(bounds@));
    }
    out
}

/// The number of columns of the zone preview: one per set bound, plus one.
pub fn preview_zone_count(bounds: &[Bound]) -> (r: usize)
    requires
        bounds@.len() < usize::MAX,
    ensures
        r == concrete_values(bounds@).len() + 1,
{
    let mut count: usize = 0;
    let mut i: usize = 0;
    while i < bounds.len()
        invariant
            i <= bounds@.len(),
            bounds@.len() < usize::MAX,
            count == concrete_values(bounds@.take(i as int)).len(),
            count <= i,
        decreases bounds@.len() - i,
    {
        proof { lemma_concrete_values_take(bounds@, i as int); }
        if bounds[i].to.is_some() {
            count += 1;
        }
        i += 1;
    }
    assert(bounds@.take(bounds@.len() as int) =~= bounds@);
    count + 1
}

} // verus!

verus! {

/// Whether `v` is a count, a duration or a time (the kinds that have zones).
pub open spec fn is_zoned_kind(v: PracticeEntryValue) -> bool {
    variant_rank(v) == 0 || variant_rank(v) == 2 || variant_rank(v) == 4
}

proof fn lemma_midpoint_same_kind(a: PracticeEntryValue, b: PracticeEntryValue)
    requires
        is_zoned_kind(a),
        variant_rank(a) == variant_rank(b),
    ensures
        midpoint_spec(a, b) is Some,
        variant_rank(midpoint_spec(a, b)->0) == variant_rank(a),
{
}

proof fn lemma_zone_midpoints_full(start: PracticeEntryValue, cs: Seq<PracticeEntryValue>)
    requires
        is_zoned_kind(start),
        forall|k: int| 0 <= k < cs.len() ==> variant_rank(#[trigger] cs[k]) == variant_rank(start),
    ensures
        zone_midpoints(start, cs).len() == cs.len(),
        forall|k: int| 0 <= k < cs.len() ==> midpoint_spec(prev_value(start, cs, k), cs[k]) is Some
            && #[trigger] zone_midpoints(start, cs)[k] == midpoint_spec(prev_value(start, cs, k), cs[k])->0,
    decreases cs.len(),
{
    if cs.len() > 0 {
        let init = cs.drop_last();
        lemma_zone_midpoints_full(start, init);
        let n = cs.len() - 1;
        assert(variant_rank(prev_value(start, cs, n)) == variant_rank(start)) by {
            if n > 0 { assert(cs[n - 1] == init[n - 1]); }
        }
        lemma_midpoint_same_kind(prev_value(start, cs, n), cs[n]);
        assert forall|k: int| 0 <= k < cs.len() implies midpoint_spec(prev_value(start, cs, k), cs[k]) is Some
            && #[trigger] zone_midpoints(start, cs)[k] == midpoint_spec(prev_value(start, cs, k), cs[k])->0 by {
            if k < n {
                assert(cs[k] == init[k]);
                assert(prev_value(start, cs, k) == prev_value(start, init, k)) by {
                    if k > 0 { assert(cs[k - 1] == init[k - 1]); }
                }
            }
        }
    }
}

/// When every set bound is of the same kind as the first and that kind is a
/// count, duration or time, the preview has one sample per zone: one for each
/// set bound and one for the zone above the last bound.
pub proof fn law_preview_one_sample_per_zone(bounds: Seq<Bound>)
    requires
        concrete_values(bounds).len() > 0,
        is_zoned_kind(concrete_values(bounds)[0]),
        forall|k: int| 0 <= k < concrete_values(bounds).len()
            ==> variant_rank(#[trigger] concrete_values(bounds)[k]) == variant_rank(concrete_values(bounds)[0]),
    ensures
        preview_values_spec(bounds).len() == concrete_values(bounds).len() + 1,
{
    let cs = concrete_values(bounds);
    let start = preview_start(cs[0])->0;
    lemma_zone_midpoints_full(start, cs);
}

/// The count of an `Int` value.
pub open spec fn count_of(v: PracticeEntryValue) -> int {
    match v {
        PracticeEntryValue::Int(x) => x as int,
        _ => 0,
    }
}

/// For counts with bounds that never decrease, each sample falls into its own
/// zone: the sample of a bounded zone is at least the bound below it (zero for
/// the first zone) and at most its own bound, and the last sample is above the
/// last bound.
pub proof fn law_preview_samples_in_zones(bounds: Seq<Bound>)
    requires
        concrete_values(bounds).len() > 0,
        forall|k: int| 0 <= k < concrete_values(bounds).len()
            ==> (#[trigger] concrete_values(bounds)[k]) is Int,
        forall|k: int| 0 < k < concrete_values(bounds).len()
            ==> count_of(concrete_values(bounds)[k - 1]) <= count_of(#[trigger] concrete_values(bounds)[k]),
        preview_fits(bounds),
    ensures
        ({
            let cs = concrete_values(bounds);
            let p = preview_values_spec(bounds);
            &&& p.len() == cs.len() + 1
            &&& forall|k: int| 0 <= k < cs.len() ==> {
                &&& (if k == 0 { 0 } else { count_of(cs[k - 1]) }) <= count_of(#[trigger] p[k])
                &&& count_of(p[k]) <= count_of(cs[k])
            }
            &&& count_of(cs.last()) < count_of(p[cs.len() as int])
        }),
{
    let cs = concrete_values(bounds);
    let start = PracticeEntryValue::Int(0);
    assert(preview_start(cs[0]) == Some(start));
    lemma_zone_midpoints_full(start, cs);
    let p = preview_values_spec(bounds);
    assert forall|k: int| 0 <= k < cs.len() implies {
        &&& (if k == 0 { 0 } else { count_of(cs[k - 1]) }) <= count_of(#[trigger] p[k])
        &&& count_of(p[k]) <= count_of(cs[k])
    } by {
        assert(p[k] == zone_midpoints(start, cs)[k]);
        assert(midpoint_fits(prev_value(start, cs, k), cs[k]));
        if k > 0 {
            assert(cs[k - 1] is Int);
        }
    }
    assert(just_above_fits(cs.last()));
    assert(cs[cs.len() - 1] is Int);
}

/// With every bound set and each greater than the one before it, the value of
/// every zone's bound is valid.
pub proof fn law_increasing_bounds_are_valid(bounds: Seq<Bound>, colour: ZoneColour)
    requires
        forall|i: int| 0 <= i < bounds.len() ==> (#[trigger] bounds[i]).to is Some,
        forall|i: int| 0 < i < bounds.len() ==> value_lt(bounds[i - 1].to->0, (#[trigger] bounds[i]).to->0),
    ensures
        bound_value_valid(bounds, colour),
{
    lemma_first_colour_index_range(bounds, colour, bounds.len() as int);
}

/// The size of a numeric value: the count, the minutes of a duration, or the
/// minutes since midnight of a time.
pub open spec fn magnitude(v: PracticeEntryValue) -> int {
    match v {
        PracticeEntryValue::Int(x) => x as int,
        PracticeEntryValue::Duration(x) => x as int,
        PracticeEntryValue::Time { h, m } => h as int * 60 + m as int,
        _ => 0,
    }
}

/// Whether a value, if it is a time, is a time of the clock (hour below 24,
/// minute below 60).
pub open spec fn is_clock_value(v: PracticeEntryValue) -> bool {
    v matches PracticeEntryValue::Time { h, m } ==> h < 24 && m < 60
}

/// Values of different kinds, or booleans and texts, have no midpoint.
pub proof fn law_no_midpoint_across_kinds(a: PracticeEntryValue, b: PracticeEntryValue)
    requires
        variant_rank(a) != variant_rank(b) || !is_zoned_kind(a),
    ensures
        midpoint_spec(a, b) is None,
{
}

/// The midpoint of two counts, two durations or two times of the clock is
/// of their kind and lies halfway between them, rounded down.
pub proof fn law_midpoint_is_halfway(a: PracticeEntryValue, b: PracticeEntryValue)
    requires
        is_zoned_kind(a),
        variant_rank(a) == variant_rank(b),
        midpoint_fits(a, b),
        is_clock_value(a),
        is_clock_value(b),
    ensures
        midpoint_spec(a, b) matches Some(mid) && variant_rank(mid) == variant_rank(a) && is_clock_value(mid)
            && magnitude(mid) == (magnitude(a) + magnitude(b)) / 2,
{
    match (a, b) {
        (PracticeEntryValue::Time { h: h1, m: m1 }, PracticeEntryValue::Time { h: h2, m: m2 }) => {
            let t = (minutes_of(h1, m1) + minutes_of(h2, m2)) / 2;
            assert(0 <= t < 1440);
            assert((t / 60) * 60 + t % 60 == t);
            assert(t / 60 < 24);
        },
        _ => {},
    }
}

/// For counts, durations and times of the clock whose bounds never decrease
/// (the first not below where the preview starts: zero, or one minute past
/// midnight), each sample is of the bounds' kind and falls into its own zone:
/// the sample of a bounded zone lies between the bound below it (or the
/// start) and its own bound, and the last sample is one step above the last
/// bound.
pub proof fn law_preview_samples_between_bounds(bounds: Seq<Bound>)
    requires
        concrete_values(bounds).len() > 0,
        is_zoned_kind(concrete_values(bounds)[0]),
        forall|k: int| 0 <= k < concrete_values(bounds).len()
            ==> variant_rank(#[trigger] concrete_values(bounds)[k]) == variant_rank(concrete_values(bounds)[0])
                && is_clock_value(concrete_values(bounds)[k]),
        forall|k: int| 0 < k < concrete_values(bounds).len()
            ==> magnitude(concrete_values(bounds)[k - 1]) <= magnitude(#[trigger] concrete_values(bounds)[k]),
        magnitude(preview_start(concrete_values(bounds)[0])->0) <= magnitude(concrete_values(bounds)[0]),
        preview_fits(bounds),
    ensures
        ({
            let cs = concrete_values(bounds);
            let p = preview_values_spec(bounds);
            let low = magnitude(preview_start(cs[0])->0);
            &&& p.len() == cs.len() + 1
            &&& forall|k: int| 0 <= k <= cs.len() ==> variant_rank(#[trigger] p[k]) == variant_rank(cs[0])
            &&& forall|k: int| 0 <= k < cs.len() ==> {
                &&& (if k == 0 { low } else { magnitude(cs[k - 1]) }) <= magnitude(#[trigger] p[k])
                &&& magnitude(p[k]) <= magnitude(cs[k])
            }
            &&& magnitude(p[cs.len() as int]) == magnitude(cs.last()) + 1
        }),
{
    let cs = concrete_values(bounds);
    let start = preview_start(cs[0])->0;
    lemma_zone_midpoints_full(start, cs);
    let p = preview_values_spec(bounds);
    let n = cs.len() as int;
    assert(p =~= zone_midpoints(start, cs) + opt_seq(just_above_spec(cs.last())));
    assert forall|k: int| 0 <= k < cs.len() implies {
        &&& variant_rank(#[trigger] p[k]) == variant_rank(cs[0])
        &&& (if k == 0 { magnitude(start) } else { magnitude(cs[k - 1]) }) <= magnitude(p[k])
        &&& magnitude(p[k]) <= magnitude(cs[k])
    } by {
        assert(p[k] == zone_midpoints(start, cs)[k]);
        assert(midpoint_fits(prev_value(start, cs, k), cs[k]));
        if k > 0 {
            assert(variant_rank(cs[k - 1]) == variant_rank(cs[0]));
            assert(is_clock_value(cs[k - 1]));
        }
        assert(variant_rank(cs[k]) == variant_rank(cs[0]));
        assert(is_clock_value(cs[k]));
        law_midpoint_is_halfway(prev_value(start, cs, k), cs[k]);
    }
    let last = cs[n - 1];
    assert(just_above_fits(last));
    assert(variant_rank(last) == variant_rank(cs[0]) && is_clock_value(last));
    assert(p[n] == just_above_spec(last)->0);
    match last {
        PracticeEntryValue::Time { h, m } => {
            let t = minutes_of(h, m) + 1;
            assert(0 < t <= 1440);
            assert((t / 60) * 60 + t % 60 == t);
        },
        _ => {},
    }
}

} // verus!

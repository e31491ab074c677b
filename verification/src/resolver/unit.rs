use vstd::prelude::*;
use crate::globals::Globals;
use crate::text::{distinct_ids, lemma_lists_push, lists_id, str_eq};

verus! {

/// A unit of measure, by its id; the empty id is no unit.
pub struct Unit {
    pub id: String,
}

impl Unit {
    /// There is no unit.
    pub fn is_empty(&self) -> (r: bool)
        ensures
            r == (self.id@.len() == 0),
    {
        self.id.as_str().unicode_len() == 0
    }

    /// No unit.
    pub fn none() -> (u: Unit)
        ensures
            u.id@ == Seq::<char>::empty(),
    {
        Unit { id: String::new() }
    }

    /// The unit with id `id`.
    pub fn from_id(id: &str) -> (u: Unit)
        ensures
            u.id@ == id@,
    {
        Unit { id: String::from_str(id) }
    }
}

/// What a unit measures.
#[derive(Clone, Copy, Debug, PartialEq, Eq, Structural)]
pub enum UnitProperty { ANGLE, LENGTH, TEMP, MassWeight, DURATION, VOLUME, CURRENT, VOLTAGE, RESISTANCE, UNDEFINED }

/// Groups of date and time units.
#[derive(Clone, Copy, Debug, PartialEq, Eq, Structural)]
pub enum UnitTag { DateTime, ShortDateTime, LongDateTime }

/// A unit's definition as the library reads it: its id, the id of the SI unit it converts
/// to, what it measures and the groups it belongs to. (How a value converts, which is
/// arithmetic in floating point, is left to the evaluator.)
pub struct UnitDef {
    pub id: String,
    pub si_id: String,
    pub property: UnitProperty,
    pub tags: Vec<UnitTag>,
}

/// A definition as plain values.
pub open spec fn def_view(d: UnitDef) -> (Seq<char>, Seq<char>, UnitProperty, Seq<UnitTag>) {
    (d.id@, d.si_id@, d.property, d.tags@)
}

/// A table of definitions as plain values.
pub open spec fn defs_view(defs: Seq<UnitDef>) -> Seq<(Seq<char>, Seq<char>, UnitProperty, Seq<UnitTag>)> {
    defs.map_values(|d: UnitDef| def_view(d))
}

/// The tags of the long names of date and time units.
pub open spec fn long_date_tags() -> Seq<UnitTag> {
    seq![UnitTag::LongDateTime, UnitTag::DateTime]
}

/// The tags of the short names of date and time units.
pub open spec fn short_date_tags() -> Seq<UnitTag> {
    seq![UnitTag::ShortDateTime, UnitTag::DateTime]
}

/// The known units: id, SI unit, what it measures, tags.
pub open spec fn spec_unit_table() -> Seq<(Seq<char>, Seq<char>, UnitProperty, Seq<UnitTag>)> {
    seq![
        (""@, ""@, UnitProperty::UNDEFINED, Seq::empty()),
        ("rad"@, "rad"@, UnitProperty::ANGLE, Seq::empty()),
        ("deg"@, "rad"@, UnitProperty::ANGLE, Seq::empty()),
        ("m"@, "m"@, UnitProperty::LENGTH, Seq::empty()),
        ("cm"@, "m"@, UnitProperty::LENGTH, Seq::empty()),
        ("km"@, "m"@, UnitProperty::LENGTH, Seq::empty()),
        ("mm"@, "m"@, UnitProperty::LENGTH, Seq::empty()),
        ("in"@, "m"@, UnitProperty::LENGTH, Seq::empty()),
        ("ft"@, "m"@, UnitProperty::LENGTH, Seq::empty()),
        ("thou"@, "m"@, UnitProperty::LENGTH, Seq::empty()),
        ("yd"@, "m"@, UnitProperty::LENGTH, Seq::empty()),
        ("mi"@, "m"@, UnitProperty::LENGTH, Seq::empty()),
        ("micron"@, "m"@, UnitProperty::LENGTH, Seq::empty()),
        ("um"@, "m"@, UnitProperty::LENGTH, Seq::empty()),
        ("ly"@, "m"@, UnitProperty::LENGTH, Seq::empty()),
        ("C"@, "K"@, UnitProperty::TEMP, Seq::empty()),
        ("K"@, "K"@, UnitProperty::TEMP, Seq::empty()),
        ("F"@, "K"@, UnitProperty::TEMP, Seq::empty()),
        ("L"@, "L"@, UnitProperty::VOLUME, Seq::empty()),
        ("mL"@, "L"@, UnitProperty::VOLUME, Seq::empty()),
        ("ml"@, "L"@, UnitProperty::VOLUME, Seq::empty()),
        ("gal"@, "L"@, UnitProperty::VOLUME, Seq::empty()),
        ("pt"@, "L"@, UnitProperty::VOLUME, Seq::empty()),
        ("kg"@, "kg"@, UnitProperty::MassWeight, Seq::empty()),
        ("N"@, "kg"@, UnitProperty::MassWeight, Seq::empty()),
        ("g"@, "kg"@, UnitProperty::MassWeight, Seq::empty()),
        ("mg"@, "kg"@, UnitProperty::MassWeight, Seq::empty()),
        ("t"@, "kg"@, UnitProperty::MassWeight, Seq::empty()),
        ("lb"@, "kg"@, UnitProperty::MassWeight, Seq::empty()),
        ("lbs"@, "kg"@, UnitProperty::MassWeight, Seq::empty()),
        ("oz"@, "kg"@, UnitProperty::MassWeight, Seq::empty()),
        ("seconds"@, "s"@, UnitProperty::DURATION, long_date_tags()),
        ("minutes"@, "s"@, UnitProperty::DURATION, long_date_tags()),
        ("hours"@, "s"@, UnitProperty::DURATION, long_date_tags()),
        ("days"@, "s"@, UnitProperty::DURATION, long_date_tags()),
        ("weeks"@, "s"@, UnitProperty::DURATION, long_date_tags()),
        ("months"@, "s"@, UnitProperty::DURATION, long_date_tags()),
        ("years"@, "s"@, UnitProperty::DURATION, long_date_tags()),
        ("milliseconds"@, "s"@, UnitProperty::DURATION, long_date_tags()),
        ("s"@, "s"@, UnitProperty::DURATION, short_date_tags()),
        ("min"@, "s"@, UnitProperty::DURATION, short_date_tags()),
        ("h"@, "s"@, UnitProperty::DURATION, short_date_tags()),
        ("d"@, "s"@, UnitProperty::DURATION, short_date_tags()),
        ("w"@, "s"@, UnitProperty::DURATION, short_date_tags()),
        ("mon"@, "s"@, UnitProperty::DURATION, short_date_tags()),
        ("y"@, "s"@, UnitProperty::DURATION, short_date_tags()),
        ("ms"@, "s"@, UnitProperty::DURATION, short_date_tags()),
        ("A"@, "A"@, UnitProperty::CURRENT, Seq::empty()),
        ("mA"@, "A"@, UnitProperty::CURRENT, Seq::empty()),
        ("R"@, "R"@, UnitProperty::RESISTANCE, Seq::empty()),
        ("mR"@, "R"@, UnitProperty::RESISTANCE, Seq::empty()),
        ("kR"@, "R"@, UnitProperty::RESISTANCE, Seq::empty()),
        ("MR"@, "R"@, UnitProperty::RESISTANCE, Seq::empty()),
        ("V"@, "V"@, UnitProperty::VOLTAGE, Seq::empty()),
        ("mV"@, "V"@, UnitProperty::VOLTAGE, Seq::empty())
    ]
}

fn no_tags() -> (v: Vec<UnitTag>)
    ensures
        v@ == Seq::<UnitTag>::empty(),
{
    Vec::new()
}

fn long_tags() -> (v: Vec<UnitTag>)
    ensures
        v@ == long_date_tags(),
{
    let mut v = Vec::new();
    v.push(UnitTag::LongDateTime);
    v.push(UnitTag::DateTime);
    v
}

fn short_tags() -> (v: Vec<UnitTag>)
    ensures
        v@ == short_date_tags(),
{
    let mut v = Vec::new();
    v.push(UnitTag::ShortDateTime);
    v.push(UnitTag::DateTime);
    v
}

fn insert_def(defs: &mut Vec<UnitDef>, id: &str, si_id: &str, property: UnitProperty, tags: Vec<UnitTag>)
    ensures
        defs_view(final(defs)@) == defs_view(old(defs)@).push((id@, si_id@, property, tags@)),
{
    let ghost before = defs@;
    defs.push(UnitDef { id: String::from_str(id), si_id: String::from_str(si_id), property, tags });
    assert(defs_view(defs@) =~= defs_view(before).push((id@, si_id@, property, tags@)));
}

/// The definitions of all known units.
#[verifier::rlimit(40)]
pub fn create_unit_defs() -> (defs: Vec<UnitDef>)
    ensures
        defs_view(defs@) == spec_unit_table(),
{
    let mut defs: Vec<UnitDef> = Vec::new();
    insert_def(&mut defs, "", "", UnitProperty::UNDEFINED, no_tags());
    insert_def(&mut defs, "rad", "rad", UnitProperty::ANGLE, no_tags());
    insert_def(&mut defs, "deg", "rad", UnitProperty::ANGLE, no_tags());

    insert_def(&mut defs, "m", "m", UnitProperty::LENGTH, no_tags());
    insert_def(&mut defs, "cm", "m", UnitProperty::LENGTH, no_tags());
    insert_def(&mut defs, "km", "m", UnitProperty::LENGTH, no_tags());
    insert_def(&mut defs, "mm", "m", UnitProperty::LENGTH, no_tags());
    insert_def(&mut defs, "in", "m", UnitProperty::LENGTH, no_tags());
    insert_def(&mut defs, "ft", "m", UnitProperty::LENGTH, no_tags());
    insert_def(&mut defs, "thou", "m", UnitProperty::LENGTH, no_tags());
    insert_def(&mut defs, "yd", "m", UnitProperty::LENGTH, no_tags());
    insert_def(&mut defs, "mi", "m", UnitProperty::LENGTH, no_tags());
    insert_def(&mut defs, "micron", "m", UnitProperty::LENGTH, no_tags());
    insert_def(&mut defs, "um", "m", UnitProperty::LENGTH, no_tags());
    insert_def(&mut defs, "ly", "m", UnitProperty::LENGTH, no_tags());

    insert_def(&mut defs, "C", "K", UnitProperty::TEMP, no_tags());
    insert_def(&mut defs, "K", "K", UnitProperty::TEMP, no_tags());
    insert_def(&mut defs, "F", "K", UnitProperty::TEMP, no_tags());

    insert_def(&mut defs, "L", "L", UnitProperty::VOLUME, no_tags());
    insert_def(&mut defs, "mL", "L", UnitProperty::VOLUME, no_tags());
    insert_def(&mut defs, "ml", "L", UnitProperty::VOLUME, no_tags());
    insert_def(&mut defs, "gal", "L", UnitProperty::VOLUME, no_tags());
    insert_def(&mut defs, "pt", "L", UnitProperty::VOLUME, no_tags());

    insert_def(&mut defs, "kg", "kg", UnitProperty::MassWeight, no_tags());
    insert_def(&mut defs, "N", "kg", UnitProperty::MassWeight, no_tags());
    insert_def(&mut defs, "g", "kg", UnitProperty::MassWeight, no_tags());
    insert_def(&mut defs, "mg", "kg", UnitProperty::MassWeight, no_tags());
    insert_def(&mut defs, "t", "kg", UnitProperty::MassWeight, no_tags());
    insert_def(&mut defs, "lb", "kg", UnitProperty::MassWeight, no_tags());
    insert_def(&mut defs, "lbs", "kg", UnitProperty::MassWeight, no_tags());
    insert_def(&mut defs, "oz", "kg", UnitProperty::MassWeight, no_tags());

    insert_def(&mut defs, "seconds", "s", UnitProperty::DURATION, long_tags());
    insert_def(&mut defs, "minutes", "s", UnitProperty::DURATION, long_tags());
    insert_def(&mut defs, "hours", "s", UnitProperty::DURATION, long_tags());
    insert_def(&mut defs, "days", "s", UnitProperty::DURATION, long_tags());
    insert_def(&mut defs, "weeks", "s", UnitProperty::DURATION, long_tags());
    insert_def(&mut defs, "months", "s", UnitProperty::DURATION, long_tags());
    insert_def(&mut defs, "years", "s", UnitProperty::DURATION, long_tags());
    insert_def(&mut defs, "milliseconds", "s", UnitProperty::DURATION, long_tags());

    insert_def(&mut defs, "s", "s", UnitProperty::DURATION, short_tags());
    insert_def(&mut defs, "min", "s", UnitProperty::DURATION, short_tags());
    insert_def(&mut defs, "h", "s", UnitProperty::DURATION, short_tags());
    insert_def(&mut defs, "d", "s", UnitProperty::DURATION, short_tags());
    insert_def(&mut defs, "w", "s", UnitProperty::DURATION, short_tags());
    insert_def(&mut defs, "mon", "s", UnitProperty::DURATION, short_tags());
    insert_def(&mut defs, "y", "s", UnitProperty::DURATION, short_tags());
    insert_def(&mut defs, "ms", "s", UnitProperty::DURATION, short_tags());

    insert_def(&mut defs, "A", "A", UnitProperty::CURRENT, no_tags());
    insert_def(&mut defs, "mA", "A", UnitProperty::CURRENT, no_tags());

    insert_def(&mut defs, "R", "R", UnitProperty::RESISTANCE, no_tags());
    insert_def(&mut defs, "mR", "R", UnitProperty::RESISTANCE, no_tags());
    insert_def(&mut defs, "kR", "R", UnitProperty::RESISTANCE, no_tags());
    insert_def(&mut defs, "MR", "R", UnitProperty::RESISTANCE, no_tags());

    insert_def(&mut defs, "V", "V", UnitProperty::VOLTAGE, no_tags());
    insert_def(&mut defs, "mV", "V", UnitProperty::VOLTAGE, no_tags());
    assert(defs_view(defs@) =~= spec_unit_table());
    defs
}

/// A way of picking unit definitions: by what they measure, by a tag, or all of them.
#[derive(Clone, Copy, Debug, PartialEq, Eq, Structural)]
pub enum UnitSelection {
    Class(UnitProperty),
    Tagged(UnitTag),
    All,
}

/// `sel` picks the definition `d`.
pub open spec fn picks(sel: UnitSelection, d: UnitDef) -> bool {
    match sel {
        UnitSelection::Class(p) => d.property == p,
        UnitSelection::Tagged(t) => d.tags@.contains(t),
        UnitSelection::All => true,
    }
}

/// One of the first `n` definitions of `defs` that `sel` picks has the id `id`.
pub open spec fn picked_among(defs: Seq<UnitDef>, sel: UnitSelection, id: Seq<char>, n: int) -> bool {
    exists|i: int| #![trigger defs[i]] 0 <= i < n && i < defs.len() && defs[i].id@ == id && picks(sel, defs[i])
}

/// A definition of `defs` that `sel` picks has the id `id`.
pub open spec fn picked(defs: Seq<UnitDef>, sel: UnitSelection, id: Seq<char>) -> bool {
    picked_among(defs, sel, id, defs.len() as int)
}

/// The index of the first definition in `defs` with the id `id`, if there is one.
pub open spec fn first_def(defs: Seq<UnitDef>, id: Seq<char>) -> Option<int> {
    if exists|i: int| 0 <= i < defs.len() && (#[trigger] defs[i]).id@ == id {
        Some(choose|i: int| 0 <= i < defs.len() && (#[trigger] defs[i]).id@ == id
            && forall|j: int| 0 <= j < i ==> (#[trigger] defs[j]).id@ != id)
    } else {
        None
    }
}

proof fn lemma_picked_among_step(defs: Seq<UnitDef>, sel: UnitSelection, id: Seq<char>, i: int)
    requires
        0 <= i < defs.len(),
    ensures
        picked_among(defs, sel, id, i + 1) <==> (picked_among(defs, sel, id, i) || (defs[i].id@ == id && picks(sel, defs[i]))),
{
}

fn has_tag(tags: &Vec<UnitTag>, t: UnitTag) -> (r: bool)
    ensures
        r == tags@.contains(t),
{
    let mut i: usize = 0;
    while i < tags.len()
        invariant
            0 <= i <= tags@.len(),
            forall|j: int| 0 <= j < i ==> tags@[j] != t,
        decreases tags@.len() - i,
    {
        if tags[i] == t {
            assert(tags@[i as int] == t);
            return true;
        }
        i = i + 1;
    }
    false
}

fn picks_def(sel: UnitSelection, d: &UnitDef) -> (r: bool)
    ensures
        r == picks(sel, *d),
{
    match sel {
        UnitSelection::Class(p) => d.property == p,
        UnitSelection::Tagged(t) => has_tag(&d.tags, t),
        UnitSelection::All => true,
    }
}

pub(crate) fn picked_id(defs: &Vec<UnitDef>, sel: UnitSelection, id: &str) -> (r: bool)
    ensures
        r == picked(defs@, sel, id@),
{
    let mut i: usize = 0;
    while i < defs.len()
        invariant
            0 <= i <= defs@.len(),
            !picked_among(defs@, sel, id@, i as int),
        decreases defs@.len() - i,
    {
        proof {
            lemma_picked_among_step(defs@, sel, id@, i as int);
        }
        if str_eq(defs[i].id.as_str(), id) && picks_def(sel, &defs[i]) {
            return true;
        }
        i = i + 1;
    }
    false
}

fn first_def_index(defs: &Vec<UnitDef>, id: &str) -> (r: Option<usize>)
    ensures
        match first_def(defs@, id@) {
            Some(i) => r matches Some(j) && j as int == i,
            None => r is None,
        },
        match r {
            Some(i) => i < defs@.len() && defs@[i as int].id@ == id@,
            None => true,
        },
{
    let mut i: usize = 0;
    while i < defs.len()
        invariant
            0 <= i <= defs@.len(),
            forall|j: int| 0 <= j < i ==> (#[trigger] defs@[j]).id@ != id@,
        decreases defs@.len() - i,
    {
        if str_eq(defs[i].id.as_str(), id) {
            proof {
                let k = choose|k: int| 0 <= k < defs@.len() && (#[trigger] defs@[k]).id@ == id@
                    && forall|j: int| 0 <= j < k ==> (#[trigger] defs@[j]).id@ != id@;
                assert(defs@[i as int].id@ == id@);
                if k > i {
                    assert(defs@[i as int].id@ != id@);
                }
            }
            return Some(i);
        }
        i = i + 1;
    }
    None
}

proof fn lemma_listed_defined(view: &UnitsView, defs: Seq<UnitDef>, id: Seq<char>)
    requires
        view.within(defs),
        view.lists(id),
    ensures
        first_def(defs, id) is Some,
{
    let k = choose|k: int| #![trigger view.units@[k]] 0 <= k < view.units@.len() && view.units@[k]@ == id;
    assert(picked(defs, UnitSelection::All, view.units@[k]@));
    let w = choose|w: int| #![trigger defs[w]] 0 <= w < defs.len() && w < defs.len()
        && defs[w].id@ == id && picks(UnitSelection::All, defs[w]);
    assert(0 <= w < defs.len() && defs[w].id@ == id);
}

/// The ids of the units a scope accepts.
#[derive(Clone)]
pub struct UnitsView {
    pub units: Vec<String>,
}

impl UnitsView {
    /// The view accepts the unit with id `id`.
    pub open spec fn lists(&self, id: Seq<char>) -> bool {
        lists_id(self.units@, id)
    }

    /// No id is held twice.
    pub open spec fn wf(&self) -> bool {
        distinct_ids(self.units@)
    }

    /// Every id held is that of a definition in `defs`.
    pub open spec fn within(&self, defs: Seq<UnitDef>) -> bool {
        forall|k: int| 0 <= k < self.units@.len() ==> picked(defs, UnitSelection::All, #[trigger] self.units@[k]@)
    }

    /// A view that accepts no unit.
    pub fn new() -> (v: UnitsView)
        ensures
            v.wf(),
            v.units@.len() == 0,
            forall|id: Seq<char>| !v.lists(id),
    {
        UnitsView { units: Vec::new() }
    }

    fn contains_id(&self, id: &str) -> (r: bool)
        ensures
            r == self.lists(id@),
    {
        let mut k: usize = 0;
        while k < self.units.len()
            invariant
                0 <= k <= self.units@.len(),
                forall|j: int| 0 <= j < k ==> (#[trigger] self.units@[j])@ != id@,
            decreases self.units@.len() - k,
        {
            if str_eq(self.units[k].as_str(), id) {
                return true;
            }
            k = k + 1;
        }
        false
    }

    fn add_selected(&mut self, sel: UnitSelection, defs: &Vec<UnitDef>)
        requires
            old(self).wf(),
        ensures
            final(self).wf(),
            forall|id: Seq<char>| #![trigger final(self).lists(id)] #![trigger picked(defs@, sel, id)]
                final(self).lists(id) <==> (old(self).lists(id) || picked(defs@, sel, id)),
            old(self).within(defs@) ==> final(self).within(defs@),
    {
        let ghost start = self.units@;
        let mut i: usize = 0;
        while i < defs.len()
            invariant
                0 <= i <= defs@.len(),
                self.wf(),
                forall|id: Seq<char>| #![trigger self.lists(id)] #![trigger picked_among(defs@, sel, id, i as int)]
                    self.lists(id) <==> (lists_id(start, id) || picked_among(defs@, sel, id, i as int)),
                (forall|k: int| 0 <= k < start.len() ==> picked(defs@, UnitSelection::All, #[trigger] start[k]@))
                    ==> self.within(defs@),
            decreases defs@.len() - i,
        {
            let ghost before = self.units@;
            if picks_def(sel, &defs[i]) && !self.contains_id(defs[i].id.as_str()) {
                let s = defs[i].id.clone();
                self.units.push(s);
                proof {
                    assert forall|j: int, k: int| 0 <= j < k < self.units@.len() implies
                        #[trigger] self.units@[j]@ != #[trigger] self.units@[k]@ by {
                        if k == before.len() {
                            assert(self.units@[j] == before[j]);
                            assert(lists_id(before, before[j]@));
                        } else {
                            assert(self.units@[j] == before[j]);
                            assert(self.units@[k] == before[k]);
                        }
                    }
                    assert(picks(UnitSelection::All, defs@[i as int]));
                    assert(picked(defs@, UnitSelection::All, defs@[i as int].id@));
                    assert forall|k: int| 0 <= k < self.units@.len() && (forall|m: int| 0 <= m < start.len() ==> picked(defs@, UnitSelection::All, #[trigger] start[m]@))
                        implies picked(defs@, UnitSelection::All, #[trigger] self.units@[k]@) by {
                        if k < before.len() {
                            assert(self.units@[k] == before[k]);
                        }
                    }
                }
            }
            proof {
                assert forall|id: Seq<char>| #![trigger self.lists(id)] #![trigger picked_among(defs@, sel, id, i + 1)]
                    self.lists(id) <==> (lists_id(start, id) || picked_among(defs@, sel, id, i + 1)) by {
                    lemma_picked_among_step(defs@, sel, id, i as int);
                    lemma_lists_push(before, defs@[i as int].id, id);
                }
            }
            i = i + 1;
        }
    }

    fn remove_selected(&mut self, sel: UnitSelection, defs: &Vec<UnitDef>)
        requires
            old(self).wf(),
            old(self).within(defs@),
        ensures
            final(self).wf(),
            final(self).within(defs@),
            forall|id: Seq<char>| #![trigger final(self).lists(id)] #![trigger picked(defs@, sel, id)]
                final(self).lists(id) <==> (old(self).lists(id) && !picked(defs@, sel, id)),
    {
        let mut kept: Vec<String> = Vec::new();
        let mut k: usize = 0;
        while k < self.units.len()
            invariant
                0 <= k <= self.units@.len(),
                self.wf(),
                self.within(defs@),
                distinct_ids(kept@),
                forall|m: int| 0 <= m < kept@.len() ==> picked(defs@, UnitSelection::All, #[trigger] kept@[m]@),
                forall|id: Seq<char>| #![trigger lists_id(kept@, id)]
                    lists_id(kept@, id) <==> (lists_id(self.units@.take(k as int), id) && !picked(defs@, sel, id)),
            decreases self.units@.len() - k,
        {
            let ghost before = kept@;
            let ghost u = self.units@[k as int];
            assert(self.units@.take(k + 1) =~= self.units@.take(k as int).push(u));
            if !picked_id(defs, sel, self.units[k].as_str()) {
                kept.push(self.units[k].clone());
                proof {
                    assert forall|j: int, m: int| 0 <= j < m < kept@.len() implies
                        #[trigger] kept@[j]@ != #[trigger] kept@[m]@ by {
                        assert(kept@[j] == before[j]);
                        if m == before.len() {
                            if before[j]@ == u@ {
                                assert(lists_id(before, u@));
                                let q = choose|q: int| #![trigger self.units@.take(k as int)[q]]
                                    0 <= q < k && self.units@.take(k as int)[q]@ == u@;
                                assert(self.units@[q] == self.units@.take(k as int)[q]);
                            }
                        } else {
                            assert(kept@[m] == before[m]);
                        }
                    }
                    assert forall|m: int| 0 <= m < kept@.len() implies picked(defs@, UnitSelection::All, #[trigger] kept@[m]@) by {
                        if m < before.len() {
                            assert(kept@[m] == before[m]);
                        }
                    }
                }
            }
            proof {
                assert forall|id: Seq<char>| #![trigger lists_id(kept@, id)]
                    lists_id(kept@, id) <==> (lists_id(self.units@.take(k + 1), id) && !picked(defs@, sel, id)) by {
                    lemma_lists_push(before, u, id);
                    lemma_lists_push(self.units@.take(k as int), u, id);
                }
            }
            k = k + 1;
        }
        assert(self.units@.take(k as int) =~= self.units@);
        self.units = kept;
    }

    /// The definition of the unit with id `id`, if the view accepts it.
    pub fn get_def<'a>(&self, id: &str, globals: &'a Globals) -> (r: Option<&'a UnitDef>)
        requires
            self.within(globals.unit_defs@),
        ensures
            !self.lists(id@) ==> r is None,
            self.lists(id@) ==> match first_def(globals.unit_defs@, id@) {
                Some(i) => r == Some(&globals.unit_defs@[i]),
                None => false,
            },
    {
        if self.contains_id(id) {
            let idx = first_def_index(&globals.unit_defs, id);
            proof {
                lemma_listed_defined(self, globals.unit_defs@, id@);
            }
            match idx {
                Some(i) => Some(&globals.unit_defs[i]),
                None => None,
            }
        } else {
            None
        }
    }

    /// Accepts, besides what it did, every unit that measures `property`.
    pub fn add_class(&mut self, property: &UnitProperty, unit_defs: &Vec<UnitDef>)
        requires
            old(self).wf(),
        ensures
            final(self).wf(),
            forall|id: Seq<char>| #![trigger final(self).lists(id)]
                final(self).lists(id) <==> (old(self).lists(id) || picked(unit_defs@, UnitSelection::Class(*property), id)),
            old(self).within(unit_defs@) ==> final(self).within(unit_defs@),
    {
        self.add_selected(UnitSelection::Class(*property), unit_defs);
    }

    /// Accepts, besides what it did, every unit tagged `tag`.
    pub fn add_tagged(&mut self, tag: &UnitTag, globals: &Globals)
        requires
            old(self).wf(),
        ensures
            final(self).wf(),
            forall|id: Seq<char>| #![trigger final(self).lists(id)]
                final(self).lists(id) <==> (old(self).lists(id) || picked(globals.unit_defs@, UnitSelection::Tagged(*tag), id)),
            old(self).within(globals.unit_defs@) ==> final(self).within(globals.unit_defs@),
    {
        self.add_selected(UnitSelection::Tagged(*tag), &globals.unit_defs);
    }

    /// Accepts every defined unit besides what it did.
    pub fn add_all_classes(&mut self, unit_defs: &Vec<UnitDef>)
        requires
            old(self).wf(),
        ensures
            final(self).wf(),
            forall|id: Seq<char>| #![trigger final(self).lists(id)]
                final(self).lists(id) <==> (old(self).lists(id) || picked(unit_defs@, UnitSelection::All, id)),
            old(self).within(unit_defs@) ==> final(self).within(unit_defs@),
    {
        self.add_selected(UnitSelection::All, unit_defs);
    }

    /// No longer accepts units that measure `property`.
    pub fn remove_class(&mut self, property: &UnitProperty, globals: &Globals)
        requires
            old(self).wf(),
            old(self).within(globals.unit_defs@),
        ensures
            final(self).wf(),
            final(self).within(globals.unit_defs@),
            forall|id: Seq<char>| #![trigger final(self).lists(id)]
                final(self).lists(id) <==> (old(self).lists(id) && !picked(globals.unit_defs@, UnitSelection::Class(*property), id)),
    {
        self.remove_selected(UnitSelection::Class(*property), &globals.unit_defs);
    }

    /// No longer accepts units tagged `tag`.
    pub fn remove_tagged(&mut self, tag: UnitTag, unit_defs: &Vec<UnitDef>)
        requires
            old(self).wf(),
            old(self).within(unit_defs@),
        ensures
            final(self).wf(),
            final(self).within(unit_defs@),
            forall|id: Seq<char>| #![trigger final(self).lists(id)]
                final(self).lists(id) <==> (old(self).lists(id) && !picked(unit_defs@, UnitSelection::Tagged(tag), id)),
    {
        self.remove_selected(UnitSelection::Tagged(tag), unit_defs);
    }

    /// Accepts, besides what it did, the units of the classes accepted by default: no
    /// unit, angles, lengths, temperatures, masses, durations and volumes.
    pub fn add_default_classes(&mut self, unit_defs: &Vec<UnitDef>)
        requires
            old(self).wf(),
        ensures
            final(self).wf(),
            forall|id: Seq<char>| #![trigger final(self).lists(id)]
                final(self).lists(id) <==> (old(self).lists(id) || picked(unit_defs@, UnitSelection::Class(UnitProperty::UNDEFINED), id)
                    || picked(unit_defs@, UnitSelection::Class(UnitProperty::ANGLE), id)
                    || picked(unit_defs@, UnitSelection::Class(UnitProperty::LENGTH), id)
                    || picked(unit_defs@, UnitSelection::Class(UnitProperty::TEMP), id)
                    || picked(unit_defs@, UnitSelection::Class(UnitProperty::MassWeight), id)
                    || picked(unit_defs@, UnitSelection::Class(UnitProperty::DURATION), id)
                    || picked(unit_defs@, UnitSelection::Class(UnitProperty::VOLUME), id)),
            old(self).within(unit_defs@) ==> final(self).within(unit_defs@),
    {
        self.add_class(&UnitProperty::UNDEFINED, unit_defs);
        self.add_class(&UnitProperty::ANGLE, unit_defs);
        self.add_class(&UnitProperty::LENGTH, unit_defs);
        self.add_class(&UnitProperty::TEMP, unit_defs);
        self.add_class(&UnitProperty::MassWeight, unit_defs);
        self.add_class(&UnitProperty::DURATION, unit_defs);
        self.add_class(&UnitProperty::VOLUME, unit_defs);
    }
}

} // verus!

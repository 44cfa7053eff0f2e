//! Confined collections that schemata are made of.
use amplify::confinement::{TinyOrdMap, TinyOrdSet};
use vstd::prelude::*;

verus! {

/// Number of elements that a schema collection is confined to.
pub const MAX_ELEMENTS: usize = 255;

/// How many times a state may occur in an operation.
#[derive(Clone, Copy, PartialEq, Eq, Structural, Hash, Debug)]
pub struct Occurrences {
    pub min: u16,
    pub max: u16,
}

/// State types, each with the number of times it may occur.
#[verifier::external_body]
#[derive(PartialEq, Eq, Debug)]
pub struct OccurrenceMap {
    map: TinyOrdMap<u16, Occurrences>,
}

/// Valency types.
#[verifier::external_body]
#[derive(PartialEq, Eq, Debug)]
pub struct ValencySet {
    set: TinyOrdSet<u16>,
}

/// What an [`OccurrenceMap`] holds.
pub uninterp spec fn occurrences_in(map: OccurrenceMap) -> Map<u16, Occurrences>;

/// What a [`ValencySet`] holds.
pub uninterp spec fn valencies_in(set: ValencySet) -> Set<u16>;

impl View for OccurrenceMap {
    type V = Map<u16, Occurrences>;

    open spec fn view(&self) -> Map<u16, Occurrences> {
        occurrences_in(*self)
    }
}

impl View for ValencySet {
    type V = Set<u16>;

    open spec fn view(&self) -> Set<u16> {
        valencies_in(*self)
    }
}

impl OccurrenceMap {
    /// `Confined::new` of `amplify`, on an ordered map: holds nothing.
    #[verifier::external_body]
    fn confined_new() -> (map: OccurrenceMap)
        ensures
            occurrences_in(map).dom() == Set::<u16>::empty(),
    {
        OccurrenceMap { map: TinyOrdMap::new() }
    }

    /// `Confined::insert` of `amplify`, on an ordered map: where the map is full it fails and
    /// leaves the map as it is, be the key in it or not; otherwise it puts the value under the
    /// key.
    #[verifier::external_body]
    fn confined_insert(&mut self, ty: u16, occurrences: Occurrences) -> (done: bool)
        ensures
            done == (occurrences_in(*old(self)).len() < MAX_ELEMENTS),
            occurrences_in(*final(self)) == if done {
                occurrences_in(*old(self)).insert(ty, occurrences)
            } else {
                occurrences_in(*old(self))
            },
    {
        self.map.insert(ty, occurrences).is_ok()
    }

    /// `BTreeMap::get`, which `Confined` of `amplify` gives access to: the value under the key.
    #[verifier::external_body]
    fn confined_get(&self, ty: u16) -> (occurrences: Option<Occurrences>)
        ensures
            occurrences == if occurrences_in(*self).contains_key(ty) {
                Some(occurrences_in(*self)[ty])
            } else {
                None
            },
    {
        self.map.get(&ty).copied()
    }

    /// `Clone::clone` of `Confined` of `amplify`, on an ordered map: holds the same.
    #[verifier::external_body]
    fn confined_clone(&self) -> (map: OccurrenceMap)
        ensures
            occurrences_in(map) == occurrences_in(*self),
    {
        OccurrenceMap { map: self.map.clone() }
    }
}

/// Entries from an index on put one by one into a map, unless the map is full before the last
/// of them.
pub open spec fn with_entries(
    map: Map<u16, Occurrences>,
    entries: Seq<(u16, Occurrences)>,
    from: int,
) -> Option<Map<u16, Occurrences>>
    decreases entries.len() - from,
{
    if from < 0 || from >= entries.len() {
        Some(map)
    } else if map.len() < MAX_ELEMENTS {
        with_entries(map.insert(entries[from].0, entries[from].1), entries, from + 1)
    } else {
        None
    }
}

/// Valencies from an index on put one by one into a set, unless the set is full before the
/// last of them.
pub open spec fn with_valencies(set: Set<u16>, valencies: Seq<u16>, from: int) -> Option<Set<u16>>
    decreases valencies.len() - from,
{
    if from < 0 || from >= valencies.len() {
        Some(set)
    } else if set.len() < MAX_ELEMENTS {
        with_valencies(set.insert(valencies[from]), valencies, from + 1)
    } else {
        None
    }
}

/// Types of the first entries.
pub open spec fn first_types(entries: Seq<(u16, Occurrences)>, upto: int) -> Set<u16> {
    Set::new(|ty: u16| exists|i: int| 0 <= i < upto && (#[trigger] entries[i]).0 == ty)
}

/// Whether a map has the values that the last of the first entries of each type give.
#[verifier::opaque]
spec fn holds_last(
    map: Map<u16, Occurrences>,
    entries: Seq<(u16, Occurrences)>,
    upto: int,
) -> bool {
    forall|i: int|
        0 <= i < upto && (forall|j: int| i < j < upto ==> entries[j].0 != entries[i].0) ==> map[(
        #[trigger] entries[i]).0] == entries[i].1
}

proof fn first_types_grow(entries: Seq<(u16, Occurrences)>, upto: int)
    requires
        0 <= upto < entries.len(),
    ensures
        first_types(entries, upto + 1) == first_types(entries, upto).insert(entries[upto].0),
{
    assert forall|ty: u16| first_types(entries, upto + 1).contains(ty) == first_types(
        entries,
        upto,
    ).insert(entries[upto].0).contains(ty) by {
        if first_types(entries, upto).contains(ty) {
            let i = choose|i: int| 0 <= i < upto && (#[trigger] entries[i]).0 == ty;
            assert(entries[i].0 == ty);
        }
        if first_types(entries, upto + 1).contains(ty) {
            let i = choose|i: int| 0 <= i < upto + 1 && (#[trigger] entries[i]).0 == ty;
            assert(i < upto ==> first_types(entries, upto).contains(ty));
        }
    }
    assert(first_types(entries, upto + 1) =~= first_types(entries, upto).insert(entries[upto].0));
}

proof fn holds_last_put(map: Map<u16, Occurrences>, entries: Seq<(u16, Occurrences)>, upto: int)
    requires
        0 <= upto < entries.len(),
        holds_last(map, entries, upto),
    ensures
        holds_last(map.insert(entries[upto].0, entries[upto].1), entries, upto + 1),
{
    reveal(holds_last);
    let next = map.insert(entries[upto].0, entries[upto].1);
    assert forall|i: int|
        0 <= i < upto + 1 && (forall|j: int|
            i < j < upto + 1 ==> entries[j].0 != entries[i].0) implies next[(
    #[trigger] entries[i]).0] == entries[i].1 by {
        if i < upto {
            assert(entries[upto].0 != entries[i].0);
            assert(forall|j: int| i < j < upto ==> entries[j].0 != entries[i].0);
        }
    }
}

proof fn entries_put(map: Map<u16, Occurrences>, entries: Seq<(u16, Occurrences)>, from: int)
    requires
        0 <= from <= entries.len(),
        map.dom() == first_types(entries, from),
        holds_last(map, entries, from),
    ensures
        with_entries(map, entries, from) is None <==> exists|k: int|
            from <= k < entries.len() && #[trigger] first_types(entries, k).len() >= MAX_ELEMENTS,
        with_entries(map, entries, from) matches Some(full) ==> full.dom() == first_types(
            entries,
            entries.len() as int,
        ) && holds_last(full, entries, entries.len() as int),
    decreases entries.len() - from,
{
    if from < entries.len() {
        assert(map.len() == first_types(entries, from).len());
        if map.len() < MAX_ELEMENTS {
            let next = map.insert(entries[from].0, entries[from].1);
            first_types_grow(entries, from);
            holds_last_put(map, entries, from);
            assert(next.dom() =~= first_types(entries, from + 1));
            entries_put(next, entries, from + 1);
        }
    }
}

/// A map can be made of entries unless, before some entry, the entries have as many different types
/// as a map holds at most. It has just the types of the entries, each with the occurrences that
/// the last entry of the type gives.
pub proof fn with_entries_iff(entries: Seq<(u16, Occurrences)>)
    ensures
        with_entries(Map::empty(), entries, 0) is None <==> exists|k: int|
            0 <= k < entries.len() && #[trigger] first_types(entries, k).len() >= 255,
        with_entries(Map::empty(), entries, 0) matches Some(map) ==> {
            &&& forall|ty: u16| #[trigger]
                map.contains_key(ty) <==> exists|i: int|
                    0 <= i < entries.len() && (#[trigger] entries[i]).0 == ty
            &&& forall|i: int|
                0 <= i < entries.len() && (forall|j: int|
                    i < j < entries.len() ==> entries[j].0 != entries[i].0) ==> map[(
                #[trigger] entries[i]).0] == entries[i].1
        },
{
    assert(Map::<u16, Occurrences>::empty().dom() =~= first_types(entries, 0));
    reveal(holds_last);
    entries_put(Map::empty(), entries, 0);
}

proof fn valencies_put(set: Set<u16>, valencies: Seq<u16>, from: int)
    requires
        0 <= from <= valencies.len(),
        set == valencies.take(from).to_set(),
    ensures
        with_valencies(set, valencies, from) is None <==> exists|k: int|
            from <= k < valencies.len() && #[trigger] valencies.take(k).to_set().len()
                >= MAX_ELEMENTS,
        with_valencies(set, valencies, from) matches Some(full) ==> full == valencies.to_set(),
    decreases valencies.len() - from,
{
    if from < valencies.len() {
        if set.len() < MAX_ELEMENTS {
            let next = set.insert(valencies[from]);
            let before = valencies.take(from);
            let after = valencies.take(from + 1);
            assert forall|valency: u16| next.contains(valency) == after.to_set().contains(
                valency,
            ) by {
                if before.contains(valency) {
                    let i = before.index_of(valency);
                    assert(after[i] == valency);
                }
                if after.contains(valency) {
                    let i = after.index_of(valency);
                    if i < from {
                        assert(before[i] == valency);
                    }
                }
                assert(after[from] == valencies[from]);
            }
            assert(next =~= after.to_set());
            valencies_put(next, valencies, from + 1);
        }
    } else {
        assert(valencies.take(from) =~= valencies);
    }
}

/// A set can be made of valencies unless, before some valency, there are as many different ones as
/// a set holds at most. It has just the valencies that it is made of.
pub proof fn with_valencies_iff(valencies: Seq<u16>)
    ensures
        with_valencies(Set::empty(), valencies, 0) is None <==> exists|k: int|
            0 <= k < valencies.len() && #[trigger] valencies.take(k).to_set().len() >= 255,
        with_valencies(Set::empty(), valencies, 0) matches Some(set) ==> forall|valency: u16|
            #[trigger]
            set.contains(valency) <==> valencies.contains(valency),
{
    assert(Set::<u16>::empty() =~= valencies.take(0).to_set());
    valencies_put(Set::empty(), valencies, 0);
}

impl OccurrenceMap {
    /// Map of the entries, a later entry in place of an earlier one of the same type. There is
    /// none when the map is full before the last entry.
    pub fn from_entries(entries: &Vec<(u16, Occurrences)>) -> (map: Option<OccurrenceMap>)
        ensures
            match map {
                Some(map) => with_entries(Map::empty(), entries@, 0) == Some(map@),
                None => with_entries(Map::empty(), entries@, 0) is None,
            },
    {
        let mut map = Self::confined_new();
        assert(map@ =~= Map::empty());
        let mut i: usize = 0;
        while i < entries.len()
            invariant
                i <= entries.len(),
                with_entries(Map::empty(), entries@, 0) == with_entries(map@, entries@, i as int),
            decreases entries.len() - i,
        {
            if !map.confined_insert(entries[i].0, entries[i].1) {
                return None;
            }
            i = i + 1;
        }
        Some(map)
    }

    /// How many times a state may occur.
    pub fn get(&self, ty: u16) -> (occurrences: Option<Occurrences>)
        ensures
            occurrences is Some <==> self@.contains_key(ty),
            occurrences matches Some(occurrences) ==> occurrences == self@[ty],
    {
        self.confined_get(ty)
    }
}

impl Default for OccurrenceMap {
    fn default() -> (map: OccurrenceMap)
        ensures
            map@ == Map::<u16, Occurrences>::empty(),
    {
        let map = Self::confined_new();
        assert(map@ =~= Map::<u16, Occurrences>::empty());
        map
    }
}

impl Clone for OccurrenceMap {
    fn clone(&self) -> (map: OccurrenceMap)
        ensures
            map@ == self@,
    {
        self.confined_clone()
    }
}

impl ValencySet {
    /// `Confined::new` of `amplify`, on an ordered set: holds nothing.
    #[verifier::external_body]
    fn confined_new() -> (set: ValencySet)
        ensures
            valencies_in(set) == Set::<u16>::empty(),
    {
        ValencySet { set: TinyOrdSet::new() }
    }

    /// `Confined::push` of `amplify`, on an ordered set: where the set is full it fails and
    /// leaves the set as it is, be the element in it or not; otherwise it puts the element in.
    #[verifier::external_body]
    fn confined_push(&mut self, valency: u16) -> (done: bool)
        ensures
            done == (valencies_in(*old(self)).len() < MAX_ELEMENTS),
            valencies_in(*final(self)) == if done {
                valencies_in(*old(self)).insert(valency)
            } else {
                valencies_in(*old(self))
            },
    {
        self.set.push(valency).is_ok()
    }

    /// `BTreeSet::contains`, which `Confined` of `amplify` gives access to: whether the element
    /// is in the set.
    #[verifier::external_body]
    fn confined_contains(&self, valency: u16) -> (found: bool)
        ensures
            found == valencies_in(*self).contains(valency),
    {
        self.set.contains(&valency)
    }

    /// `Clone::clone` of `Confined` of `amplify`, on an ordered set: holds the same.
    #[verifier::external_body]
    fn confined_clone(&self) -> (set: ValencySet)
        ensures
            valencies_in(set) == valencies_in(*self),
    {
        ValencySet { set: self.set.clone() }
    }

    /// Set of the valencies. There is none when the set is full before the last of them.
    pub fn from_valencies(valencies: &Vec<u16>) -> (set: Option<ValencySet>)
        ensures
            match set {
                Some(set) => with_valencies(Set::empty(), valencies@, 0) == Some(set@),
                None => with_valencies(Set::empty(), valencies@, 0) is None,
            },
    {
        let mut set = Self::confined_new();
        let mut i: usize = 0;
        while i < valencies.len()
            invariant
                i <= valencies.len(),
                with_valencies(Set::empty(), valencies@, 0) == with_valencies(
                    set@,
                    valencies@,
                    i as int,
                ),
            decreases valencies.len() - i,
        {
            if !set.confined_push(valencies[i]) {
                return None;
            }
            i = i + 1;
        }
        Some(set)
    }

    /// Whether a valency is in the set.
    pub fn contains(&self, valency: u16) -> (found: bool)
        ensures
            found == self@.contains(valency),
    {
        self.confined_contains(valency)
    }
}

impl Default for ValencySet {
    fn default() -> (set: ValencySet)
        ensures
            set@ == Set::<u16>::empty(),
    {
        Self::confined_new()
    }
}

impl Clone for ValencySet {
    fn clone(&self) -> (set: ValencySet)
        ensures
            set@ == self@,
    {
        self.confined_clone()
    }
}

} // verus!

//! Ordered index of operations.
use crate::ids::OpId;
use vstd::prelude::*;

verus! {

/// Whether `k` is the first byte in which two identifiers differ, and the lower one is the
/// first.
pub open spec fn less_at(a: OpId, b: OpId, k: int) -> bool {
    &&& 0 <= k < 32
    &&& a.0[k] < b.0[k]
    &&& forall|j: int| 0 <= j < k ==> a.0[j] == b.0[j]
}

/// Order of identifiers: that of their bytes, the first byte before the others.
pub open spec fn less(a: OpId, b: OpId) -> bool {
    exists|k: int| less_at(a, b, k)
}

/// How two identifiers compare.
#[derive(Clone, Copy, PartialEq, Eq, Structural)]
enum Side {
    Less,
    Same,
    Greater,
}

fn compare(a: &OpId, b: &OpId) -> (side: Side)
    ensures
        match side {
            Side::Less => less(*a, *b),
            Side::Same => *a == *b,
            Side::Greater => less(*b, *a),
        },
{
    let mut k: usize = 0;
    while k < 32
        invariant
            k <= 32,
            forall|j: int| 0 <= j < k ==> a.0[j] == b.0[j],
        decreases 32 - k,
    {
        if a.0[k] < b.0[k] {
            assert(less_at(*a, *b, k as int));
            return Side::Less;
        }
        if b.0[k] < a.0[k] {
            assert(less_at(*b, *a, k as int));
            return Side::Greater;
        }
        k = k + 1;
    }
    assert(a.0 =~= b.0);
    Side::Same
}

proof fn less_transitive(a: OpId, b: OpId, c: OpId)
    requires
        less(a, b),
        less(b, c),
    ensures
        less(a, c),
{
    let k = choose|k: int| less_at(a, b, k);
    let l = choose|l: int| less_at(b, c, l);
    assert(less_at(a, c, if k < l { k } else { l }));
}

proof fn less_strict(a: OpId, b: OpId)
    requires
        less(a, b),
    ensures
        a != b,
        !less(b, a),
{
    let k = choose|k: int| less_at(a, b, k);
    if less(b, a) {
        let l = choose|l: int| less_at(b, a, l);
        assert(k < l || l < k || k == l);
    }
}

/// Values kept by operation.
pub struct OpIndex<V> {
    entries: Vec<(OpId, V)>,
}

/// Set of operations.
pub type OpIdSet = OpIndex<()>;

impl<V> View for OpIndex<V> {
    type V = Map<OpId, V>;

    closed spec fn view(&self) -> Map<OpId, V> {
        Map::new(
            |id: OpId| exists|i: int| #[trigger] self.holds(id, i),
            |id: OpId| self.entries@[choose|i: int| #[trigger] self.holds(id, i)].1,
        )
    }
}

impl<V> OpIndex<V> {
    spec fn holds(&self, id: OpId, i: int) -> bool {
        0 <= i < self.entries@.len() && self.entries@[i].0 == id
    }

    /// Entries stand in ascending order, so that no operation occurs twice.
    pub closed spec fn well_formed(&self) -> bool {
        forall|i: int, j: int|
            0 <= i < j < self.entries@.len() ==> less(
                (#[trigger] self.entries@[i]).0,
                (#[trigger] self.entries@[j]).0,
            )
    }

    proof fn lemma_unique(&self, i: int, j: int)
        requires
            self.well_formed(),
            0 <= i < self.entries@.len(),
            0 <= j < self.entries@.len(),
            self.entries@[i].0 == self.entries@[j].0,
        ensures
            i == j,
    {
        if i < j {
            less_strict(self.entries@[i].0, self.entries@[j].0);
        }
        if j < i {
            less_strict(self.entries@[j].0, self.entries@[i].0);
        }
    }

    proof fn lemma_holds(&self, id: OpId, i: int)
        requires
            self.well_formed(),
            self.holds(id, i),
        ensures
            self@.contains_key(id),
            self@[id] == self.entries@[i].1,
    {
        let k = choose|k: int| #[trigger] self.holds(id, k);
        self.lemma_unique(i, k);
    }

    /// Index of nothing.
    pub fn new() -> (index: Self)
        ensures
            index.well_formed(),
            index@ == Map::<OpId, V>::empty(),
    {
        let index = OpIndex { entries: Vec::new() };
        assert(index@ =~= Map::<OpId, V>::empty());
        index
    }

    /// Place of an operation: where it stands, or else where it would be put.
    fn search(&self, id: OpId) -> (place: Result<usize, usize>)
        requires
            self.well_formed(),
        ensures
            match place {
                Ok(i) => self.holds(id, i as int),
                Err(i) => {
                    &&& i <= self.entries@.len()
                    &&& forall|j: int| 0 <= j < i ==> less((#[trigger] self.entries@[j]).0, id)
                    &&& forall|j: int|
                        i <= j < self.entries@.len() ==> less(id, (#[trigger] self.entries@[j]).0)
                },
            },
    {
        let mut low: usize = 0;
        let mut high: usize = self.entries.len();
        while low < high
            invariant
                self.well_formed(),
                low <= high <= self.entries@.len(),
                forall|j: int| 0 <= j < low ==> less((#[trigger] self.entries@[j]).0, id),
                forall|j: int|
                    high <= j < self.entries@.len() ==> less(id, (#[trigger] self.entries@[j]).0),
            decreases high - low,
        {
            let mid: usize = low + (high - low) / 2;
            match compare(&self.entries[mid].0, &id) {
                Side::Same => {
                    return Ok(mid);
                },
                Side::Less => {
                    proof {
                        assert forall|j: int| 0 <= j < mid + 1 implies less(
                            (#[trigger] self.entries@[j]).0,
                            id,
                        ) by {
                            if j < mid {
                                less_transitive(
                                    self.entries@[j].0,
                                    self.entries@[mid as int].0,
                                    id,
                                );
                            }
                        }
                    }
                    low = mid + 1;
                },
                Side::Greater => {
                    proof {
                        assert forall|j: int| mid <= j < self.entries@.len() implies less(
                            id,
                            (#[trigger] self.entries@[j]).0,
                        ) by {
                            if mid < j {
                                less_transitive(
                                    id,
                                    self.entries@[mid as int].0,
                                    self.entries@[j].0,
                                );
                            }
                        }
                    }
                    high = mid;
                },
            }
        }
        Err(low)
    }

    /// Whether the operation is in the index.
    pub fn contains(&self, id: OpId) -> (found: bool)
        requires
            self.well_formed(),
        ensures
            found == self@.contains_key(id),
    {
        match self.search(id) {
            Ok(i) => {
                proof {
                    self.lemma_holds(id, i as int);
                }
                true
            },
            Err(i) => {
                proof {
                    self.lemma_absent(id, i as int);
                }
                false
            },
        }
    }

    proof fn lemma_absent(&self, id: OpId, i: int)
        requires
            forall|j: int| 0 <= j < i ==> less((#[trigger] self.entries@[j]).0, id),
            forall|j: int|
                i <= j < self.entries@.len() ==> less(id, (#[trigger] self.entries@[j]).0),
        ensures
            !self@.contains_key(id),
    {
        if self@.contains_key(id) {
            let k = choose|k: int| #[trigger] self.holds(id, k);
            less_strict(self.entries@[k].0, id);
        }
    }

    /// Value of an operation.
    pub fn get(&self, id: OpId) -> (value: Option<&V>)
        requires
            self.well_formed(),
        ensures
            match value {
                Some(value) => self@.contains_key(id) && *value == self@[id],
                None => !self@.contains_key(id),
            },
    {
        match self.search(id) {
            Ok(i) => {
                proof {
                    self.lemma_holds(id, i as int);
                }
                Some(&self.entries[i].1)
            },
            Err(i) => {
                proof {
                    self.lemma_absent(id, i as int);
                }
                None
            },
        }
    }

    /// Puts a value in, in place of the value that the operation had.
    pub fn insert(&mut self, id: OpId, value: V)
        requires
            old(self).well_formed(),
        ensures
            final(self).well_formed(),
            final(self)@ == old(self)@.insert(id, value),
    {
        let ghost before = *self;
        match self.search(id) {
            Ok(i) => {
                self.entries.set(i, (id, value));
                proof {
                    self.lemma_inserted(before, id, value, i as int, |k: int| k, |k: int| k);
                }
            },
            Err(i) => {
                self.entries.insert(i, (id, value));
                proof {
                    self.lemma_inserted(
                        before,
                        id,
                        value,
                        i as int,
                        |k: int|
                            if k < i {
                                k
                            } else {
                                k - 1
                            },
                        |k: int|
                            if k < i {
                                k
                            } else {
                                k + 1
                            },
                    );
                }
            },
        }
    }

    proof fn lemma_inserted(
        &self,
        before: Self,
        id: OpId,
        value: V,
        at: int,
        source: spec_fn(int) -> int,
        target: spec_fn(int) -> int,
    )
        requires
            before.well_formed(),
            self.well_formed(),
            self.holds(id, at),
            self.entries@[at].1 == value,
            forall|x: OpId, k: int| #[trigger]
                self.holds(x, k) && x != id ==> before.holds(x, source(k))
                    && before.entries@[source(k)] == self.entries@[k],
            forall|x: OpId, k: int| #[trigger]
                before.holds(x, k) && x != id ==> self.holds(x, target(k)),
        ensures
            self@ == before@.insert(id, value),
    {
        self.lemma_holds(id, at);
        assert forall|x: OpId| x != id implies #[trigger] self@.contains_key(x)
            == before@.contains_key(x) && (self@.contains_key(x) ==> self@[x] == before@[x]) by {
            if self@.contains_key(x) {
                let k = choose|k: int| #[trigger] self.holds(x, k);
                before.lemma_holds(x, source(k));
                self.lemma_holds(x, k);
            }
            if before@.contains_key(x) {
                let k = choose|k: int| #[trigger] before.holds(x, k);
                assert(self.holds(x, target(k)));
            }
        }
        assert(self@ =~= before@.insert(id, value));
    }
}

} // verus!

//! The store: the capability GET and SET consult, and an in-memory engine
//! over a list of entries whose meaning is a map from keys to the most
//! recently stored value.

use vstd::prelude::*;
use crate::bytes::bytes_eq;
use vstd::slice::slice_to_vec;

verus! {

/// A byte-keyed store of byte values.
pub trait Engine {
    /// The mapping held: each key to its most recently stored value.
    spec fn store(&self) -> Map<Seq<u8>, Seq<u8>>;

    /// The value stored under `key`, if any.
    fn get(&self, key: &Vec<u8>) -> (r: Option<Vec<u8>>)
        ensures
            match r {
                Option::Some(v) => self.store().contains_key(key@) && v@ == self.store()[key@],
                Option::None => !self.store().contains_key(key@),
            },
    ;

    /// Store `value` under `key`, overwriting unconditionally.
    fn set(&mut self, key: Vec<u8>, value: Vec<u8>)
        ensures
            final(self).store() == old(self).store().insert(key@, value@),
    ;
}

/// The map an entry list denotes; a later entry overwrites an earlier one.
pub open spec fn map_of(entries: Seq<(Vec<u8>, Vec<u8>)>) -> Map<Seq<u8>, Seq<u8>>
    decreases entries.len(),
{
    if entries.len() == 0 {
        Map::empty()
    } else {
        map_of(entries.drop_last()).insert(entries.last().0@, entries.last().1@)
    }
}

/// An entry with no later entry for its key gives the lookup.
proof fn lemma_map_of_found(entries: Seq<(Vec<u8>, Vec<u8>)>, i: int, key: Seq<u8>)
    requires
        0 <= i < entries.len(),
        entries[i].0@ == key,
        forall|j: int| i < j < entries.len() ==> (#[trigger] entries[j]).0@ != key,
    ensures
        map_of(entries).contains_key(key),
        map_of(entries)[key] == entries[i].1@,
    decreases entries.len(),
{
    if i == entries.len() - 1 {
    } else {
        let q = entries.drop_last();
        assert(forall|j: int| 0 <= j < q.len() ==> #[trigger] q[j] == entries[j]);
        lemma_map_of_found(q, i, key);
        assert(entries.last().0@ != key);
    }
}

/// A key no entry carries is absent from the map.
proof fn lemma_map_of_absent(entries: Seq<(Vec<u8>, Vec<u8>)>, key: Seq<u8>)
    requires
        forall|j: int| 0 <= j < entries.len() ==> (#[trigger] entries[j]).0@ != key,
    ensures
        !map_of(entries).contains_key(key),
    decreases entries.len(),
{
    if entries.len() > 0 {
        let q = entries.drop_last();
        assert(forall|j: int| 0 <= j < q.len() ==> #[trigger] q[j] == entries[j]);
        lemma_map_of_absent(q, key);
        assert(entries.last().0@ != key);
    }
}

/// Overwriting the last entry for a key updates exactly that key.
proof fn lemma_map_of_update(
    entries: Seq<(Vec<u8>, Vec<u8>)>,
    i: int,
    p: (Vec<u8>, Vec<u8>),
)
    requires
        0 <= i < entries.len(),
        entries[i].0@ == p.0@,
        forall|j: int| i < j < entries.len() ==> (#[trigger] entries[j]).0@ != p.0@,
    ensures
        map_of(entries.update(i, p)) == map_of(entries).insert(p.0@, p.1@),
    decreases entries.len(),
{
    let u = entries.update(i, p);
    if i == entries.len() - 1 {
        assert(u.drop_last() =~= entries.drop_last());
        assert(u.last() == p);
        assert(map_of(entries.drop_last()).insert(entries.last().0@, entries.last().1@).insert(
            p.0@,
            p.1@,
        ) =~= map_of(entries.drop_last()).insert(p.0@, p.1@));
    } else {
        let q = entries.drop_last();
        assert(forall|j: int| 0 <= j < q.len() ==> #[trigger] q[j] == entries[j]);
        lemma_map_of_update(q, i, p);
        assert(u.drop_last() =~= q.update(i, p));
        assert(u.last() == entries.last());
        assert(entries.last().0@ != p.0@);
        assert(map_of(q).insert(p.0@, p.1@).insert(entries.last().0@, entries.last().1@)
            =~= map_of(q).insert(entries.last().0@, entries.last().1@).insert(p.0@, p.1@));
    }
}

/// Appending an entry inserts its key.
proof fn lemma_map_of_push(entries: Seq<(Vec<u8>, Vec<u8>)>, p: (Vec<u8>, Vec<u8>))
    ensures
        map_of(entries.push(p)) == map_of(entries).insert(p.0@, p.1@),
{
    assert(entries.push(p).drop_last() =~= entries);
    assert(entries.push(p).last() == p);
}

/// A store held in memory.
pub struct InMemoryEngine {
    entries: Vec<(Vec<u8>, Vec<u8>)>,
}

impl InMemoryEngine {
    /// An empty store.
    pub fn new() -> (r: Self)
        ensures
            r.store() == Map::<Seq<u8>, Seq<u8>>::empty(),
    {
        InMemoryEngine { entries: Vec::new() }
    }
}

impl Engine for InMemoryEngine {
    closed spec fn store(&self) -> Map<Seq<u8>, Seq<u8>> {
        map_of(self.entries@)
    }

    fn get(&self, key: &Vec<u8>) -> (r: Option<Vec<u8>>) {
        let n = self.entries.len();
        let mut i = n;
        while i > 0
            invariant
                i <= n,
                n == self.entries@.len(),
                forall|j: int|
                    i <= j < n ==> (#[trigger] self.entries@[j]).0@ != key@,
            decreases i,
        {
            i = i - 1;
            if bytes_eq(self.entries[i].0.as_slice(), key.as_slice()) {
                proof {
                    lemma_map_of_found(self.entries@, i as int, key@);
                }
                return Option::Some(slice_to_vec(self.entries[i].1.as_slice()));
            }
        }
        proof {
            lemma_map_of_absent(self.entries@, key@);
        }
        Option::None
    }

    fn set(&mut self, key: Vec<u8>, value: Vec<u8>) {
        let n = self.entries.len();
        let mut i = n;
        while i > 0
            invariant
                i <= n,
                n == self.entries@.len(),
                self.entries@ == old(self).entries@,
                forall|j: int|
                    i <= j < n ==> (#[trigger] self.entries@[j]).0@ != key@,
            decreases i,
        {
            i = i - 1;
            if bytes_eq(self.entries[i].0.as_slice(), key.as_slice()) {
                proof {
                    lemma_map_of_update(self.entries@, i as int, (key, value));
                }
                self.entries.set(i, (key, value));
                return;
            }
        }
        proof {
            lemma_map_of_push(self.entries@, (key, value));
        }
        self.entries.push((key, value));
    }
}

} // verus!

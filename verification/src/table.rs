//! One entity table: a durable ordered map of encoded records together with
//! its ghost model, a map from identifier to the abstract record it holds.
//! The table invariant ties every stored byte string to the encoding of the
//! model record under the same key, so lookups decode to exactly the model.

use crate::backing::{
    map_contains, map_entries, map_entries_vec, map_get, map_insert, map_is_empty, map_remove,
    RecordMap,
};
use vstd::prelude::*;

verus! {

/// The fixed per-record byte bound enforced at every write.
pub const MAX_RECORD_BYTES: usize = 1024;

/// An entity record: it has an identifier, and a flat byte encoding that the
/// decoder inverts exactly.
pub trait Record: View + Sized {
    /// The byte encoding of an abstract record.
    spec fn enc(v: Self::V) -> Seq<u8>;

    /// The identifier stored inside an abstract record.
    spec fn rid(v: Self::V) -> u64;

    /// The identifier of this record.
    fn key(&self) -> (k: u64)
        ensures
            k == Self::rid(self@),
    ;

    /// Encodes this record.
    fn encode(&self) -> (r: Vec<u8>)
        ensures
            r@ == Self::enc(self@),
    ;

    /// Decodes a record from bytes known to be the encoding of `w`.
    fn decode(bytes: &Vec<u8>, w: Ghost<Self::V>) -> (r: Self)
        requires
            bytes@ == Self::enc(w@),
        ensures
            r@ == w@,
    ;
}

/// `v` lists exactly the records of `m`, in strictly ascending identifier
/// order.
pub open spec fn listing_of<T: Record>(v: Seq<T>, m: Map<u64, T::V>) -> bool {
    &&& forall|i: int, j: int|
        0 <= i < j < v.len() ==> T::rid((#[trigger] v[i])@) < T::rid((#[trigger] v[j])@)
    &&& forall|i: int|
        0 <= i < v.len() ==> m.dom().contains(T::rid((#[trigger] v[i])@)) && v[i]@ == m[T::rid(
            v[i]@,
        )]
    &&& forall|k: u64| #[trigger] m.dom().contains(k) ==> exists|i: int|
        0 <= i < v.len() && T::rid((#[trigger] v[i])@) == k
}

/// A durable table of records of one entity type.
#[verifier::reject_recursive_types(T)]
pub struct Table<T: Record> {
    map: RecordMap,
    model: Ghost<Map<u64, T::V>>,
}

impl<T: Record> Table<T> {
    /// The abstract contents of the table.
    pub closed spec fn model(self) -> Map<u64, T::V> {
        self.model@
    }

    /// The table invariant: the durable map and the model agree key by key,
    /// every record carries its own key as identifier, and every stored
    /// encoding respects the record byte bound.
    pub closed spec fn wf(self) -> bool {
        &&& map_entries(self.map).dom() == self.model@.dom()
        &&& forall|k: u64| #[trigger]
            self.model@.dom().contains(k) ==> {
                &&& map_entries(self.map)[k] == T::enc(self.model@[k])
                &&& T::rid(self.model@[k]) == k
                &&& T::enc(self.model@[k]).len() <= MAX_RECORD_BYTES as int
            }
    }

    /// Attaches to an empty durable map.
    pub fn new(map: RecordMap) -> (r: Self)
        requires
            map_entries(map) == Map::<u64, Seq<u8>>::empty(),
        ensures
            r.wf(),
            r.model() == Map::<u64, T::V>::empty(),
    {
        let t = Table { map, model: Ghost(Map::empty()) };
        proof {
            assert(map_entries(t.map).dom() =~= t.model@.dom());
        }
        t
    }

    /// Whether a record is stored under the identifier.
    pub fn contains(&self, id: u64) -> (r: bool)
        requires
            self.wf(),
        ensures
            r == self.model().dom().contains(id),
    {
        map_contains(&self.map, id)
    }

    /// Whether the table holds nothing at all.
    pub fn is_empty(&self) -> (r: bool)
        requires
            self.wf(),
        ensures
            r == (self.model() == Map::<u64, T::V>::empty()),
    {
        let e = map_is_empty(&self.map);
        proof {
            if e {
                assert(self.model@ =~= Map::<u64, T::V>::empty());
            } else if self.model@ == Map::<u64, T::V>::empty() {
                assert(map_entries(self.map) =~= Map::<u64, Seq<u8>>::empty());
            }
        }
        e
    }

    /// Point lookup: the record stored under the identifier, if any.
    pub fn get(&self, id: u64) -> (r: Option<T>)
        requires
            self.wf(),
        ensures
            match r {
                Some(t) => self.model().dom().contains(id) && t@ == self.model()[id] && T::rid(t@)
                    == id && T::enc(t@).len() <= MAX_RECORD_BYTES as int,
                None => !self.model().dom().contains(id),
            },
    {
        match map_get(&self.map, id) {
            Some(bytes) => Some(T::decode(&bytes, Ghost(self.model@[id]))),
            None => None,
        }
    }

    /// Upsert: stores the record under its own identifier.
    pub fn put(&mut self, t: &T)
        requires
            old(self).wf(),
            T::enc(t@).len() <= MAX_RECORD_BYTES as int,
        ensures
            final(self).wf(),
            final(self).model() == old(self).model().insert(T::rid(t@), t@),
    {
        let k = t.key();
        let bytes = t.encode();
        map_insert(&mut self.map, k, bytes);
        self.model = Ghost(self.model@.insert(k, t@));
        proof {
            assert(map_entries(self.map).dom() =~= self.model@.dom());
        }
    }

    /// Deletes the record stored under the identifier and returns it, if any.
    pub fn remove(&mut self, id: u64) -> (r: Option<T>)
        requires
            old(self).wf(),
        ensures
            final(self).wf(),
            final(self).model() == old(self).model().remove(id),
            match r {
                Some(t) => old(self).model().dom().contains(id) && t@ == old(self).model()[id],
                None => !old(self).model().dom().contains(id),
            },
    {
        let prior = map_remove(&mut self.map, id);
        let ghost pre = self.model@;
        self.model = Ghost(self.model@.remove(id));
        proof {
            assert(map_entries(self.map).dom() =~= self.model@.dom());
        }
        match prior {
            Some(bytes) => Some(T::decode(&bytes, Ghost(pre[id]))),
            None => None,
        }
    }

    /// Every record in the table, in strictly ascending identifier order.
    pub fn list(&self) -> (r: Vec<T>)
        requires
            self.wf(),
        ensures
            listing_of(r@, self.model()),
            r@.len() == 0 <==> self.model() == Map::<u64, T::V>::empty(),
    {
        let entries = map_entries_vec(&self.map);
        let mut out: Vec<T> = Vec::new();
        let n = entries.len();
        for idx in 0..n
            invariant
                n == entries@.len(),
                out@.len() == idx,
                self.wf(),
                forall|i: int, j: int|
                    0 <= i < j < entries@.len() ==> (#[trigger] entries@[i]).0
                        < (#[trigger] entries@[j]).0,
                forall|i: int|
                    0 <= i < entries@.len() ==> map_entries(self.map).contains_pair(
                        (#[trigger] entries@[i]).0,
                        entries@[i].1@,
                    ),
                forall|i: int|
                    0 <= i < idx ==> T::rid((#[trigger] out@[i])@) == entries@[i].0 && out@[i]@
                        == self.model()[entries@[i].0],
        {
            let ghost k = entries@[idx as int].0;
            proof {
                assert(map_entries(self.map).contains_pair(k, entries@[idx as int].1@));
            }
            let t = T::decode(&entries[idx].1, Ghost(self.model@[k]));
            out.push(t);
        }
        proof {
            assert forall|k: u64| #[trigger] self.model().dom().contains(k) implies exists|i: int|
                0 <= i < out@.len() && T::rid((#[trigger] out@[i])@) == k by {
                let i = choose|i: int| 0 <= i < entries@.len() && (#[trigger] entries@[i]).0 == k;
                assert(T::rid(out@[i]@) == k);
            }
            if out@.len() == 0 {
                assert(self.model@ =~= Map::<u64, T::V>::empty());
            } else {
                assert(self.model().dom().contains(T::rid(out@[0]@)));
            }
        }
        out
    }
}

} // verus!

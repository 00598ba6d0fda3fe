//! Storage backends: the capability to store a payload under a fresh random
//! identifier and to retrieve it again.
//!
//! `InMemoryDb` is the process-local variant: records live in this process and
//! are lost on restart. It owns its records exclusively — retrieval returns a
//! copy, never an alias — and callers serialize access through `&mut`; the
//! surrounding program keeps one backend instance behind a single
//! mutual-exclusion lock so that concurrent requests cannot interleave.

use crate::utils::{random_id, valid_id};
use vstd::prelude::*;

verus! {

/// The storage capability: exactly {store, retrieve}.
///
/// The state is modelled as a map from identifier to payload bytes. Every
/// identifier returned by `set` retrieves, until removed by expiry where the
/// backend has one, exactly the payload passed to that `set` call.
pub trait Db: Sized {
    /// Well-formedness of the backend's internal state; constructors
    /// establish it and both operations preserve it.
    spec fn inv(&self) -> bool;

    /// The records the backend currently holds.
    spec fn records(&self) -> Map<Seq<char>, Seq<u8>>;

    /// Stores `data` under a fresh random identifier and returns that
    /// identifier. On the (undetected) collision of two generated
    /// identifiers the later payload overwrites the earlier one.
    fn set(&mut self, data: Vec<u8>) -> (id: String)
        requires
            old(self).inv(),
        ensures
            final(self).inv(),
            valid_id(id@),
            final(self).records() == old(self).records().insert(id@, data@),
    ;

    /// Returns a copy of the payload stored under `id`, or `None` where no
    /// such record exists. Absence is a normal outcome, not a failure.
    fn get(&mut self, id: &str) -> (r: Option<Vec<u8>>)
        requires
            old(self).inv(),
        ensures
            final(self).inv(),
            final(self).records() == old(self).records(),
            (match r {
                Some(v) => old(self).records().contains_key(id@) && v@ == old(self).records()[id@],
                None => !old(self).records().contains_key(id@),
            }),
    ;
}

/// Keys of the association list are pairwise distinct.
pub open spec fn unique_keys(s: Seq<(String, Vec<u8>)>) -> bool {
    forall|i: int, j: int|
        0 <= i < j < s.len() ==> (#[trigger] s[i]).0@ != (#[trigger] s[j]).0@
}

/// The map an association list of (identifier, payload) entries denotes.
pub open spec fn entry_map(s: Seq<(String, Vec<u8>)>) -> Map<Seq<char>, Seq<u8>> {
    Map::new(
        |k: Seq<char>| exists|i: int| 0 <= i < s.len() && (#[trigger] s[i]).0@ == k,
        |k: Seq<char>|
            (s[choose|i: int| 0 <= i < s.len() && (#[trigger] s[i]).0@ == k]).1@,
    )
}

/// The entry at a given index of a duplicate-free association list is the one
/// its map holds for that key.
proof fn lemma_entry_map_at(s: Seq<(String, Vec<u8>)>, idx: int)
    requires
        unique_keys(s),
        0 <= idx < s.len(),
    ensures
        entry_map(s).contains_key(s[idx].0@),
        entry_map(s)[s[idx].0@] == s[idx].1@,
{
    let k = s[idx].0@;
    assert(0 <= idx < s.len() && s[idx].0@ == k);
    let j = choose|i: int| 0 <= i < s.len() && (#[trigger] s[i]).0@ == k;
    if j < idx {
        assert(s[j].0@ != s[idx].0@);
    } else if idx < j {
        assert(s[idx].0@ != s[j].0@);
    }
}

/// A key under which no entry stands is not in the map.
proof fn lemma_entry_map_absent(s: Seq<(String, Vec<u8>)>, k: Seq<char>)
    requires
        forall|i: int| 0 <= i < s.len() ==> (#[trigger] s[i]).0@ != k,
    ensures
        !entry_map(s).contains_key(k),
{
}

/// Appending an entry with a fresh key inserts it into the denoted map.
proof fn lemma_entry_map_push(s: Seq<(String, Vec<u8>)>, x: (String, Vec<u8>))
    requires
        unique_keys(s),
        forall|i: int| 0 <= i < s.len() ==> (#[trigger] s[i]).0@ != x.0@,
    ensures
        unique_keys(s.push(x)),
        entry_map(s.push(x)) =~= entry_map(s).insert(x.0@, x.1@),
{
    let s2 = s.push(x);
    assert forall|i: int, j: int| 0 <= i < j < s2.len() implies (#[trigger] s2[i]).0@ != (
    #[trigger] s2[j]).0@ by {
        if j < s.len() {
            assert(s[i].0@ != s[j].0@);
        } else {
            assert(s2[j] == x);
            assert(s[i].0@ != x.0@);
        }
    }
    assert forall|k: Seq<char>| entry_map(s2).contains_key(k) implies entry_map(s).insert(
        x.0@,
        x.1@,
    ).contains_key(k) && entry_map(s2)[k] == entry_map(s).insert(x.0@, x.1@)[k] by {
        let j = choose|i: int| 0 <= i < s2.len() && (#[trigger] s2[i]).0@ == k;
        if k == x.0@ {
            assert(j == s.len());
            assert(entry_map(s2)[k] == x.1@);
        } else {
            assert(j < s.len());
            assert(0 <= j < s.len() && s[j].0@ == k);
            lemma_entry_map_at(s, j);
            let j2 = choose|i: int| 0 <= i < s.len() && (#[trigger] s[i]).0@ == k;
            if j != j2 {
                if j < j2 {
                    assert(s[j].0@ != s[j2].0@);
                } else {
                    assert(s[j2].0@ != s[j].0@);
                }
            }
        }
    }
    assert forall|k: Seq<char>| entry_map(s).insert(x.0@, x.1@).contains_key(k) implies entry_map(
        s2,
    ).contains_key(k) by {
        if k == x.0@ {
            assert(0 <= s.len() < s2.len() && s2[s.len() as int].0@ == k);
        } else {
            let j = choose|i: int| 0 <= i < s.len() && (#[trigger] s[i]).0@ == k;
            assert(0 <= j < s2.len() && s2[j].0@ == k);
        }
    }
}

/// Overwriting the entry that holds a key updates the denoted map at that key.
proof fn lemma_entry_map_update(s: Seq<(String, Vec<u8>)>, idx: int, x: (String, Vec<u8>))
    requires
        unique_keys(s),
        0 <= idx < s.len(),
        s[idx].0@ == x.0@,
    ensures
        unique_keys(s.update(idx, x)),
        entry_map(s.update(idx, x)) =~= entry_map(s).insert(x.0@, x.1@),
{
    let s2 = s.update(idx, x);
    assert forall|i: int, j: int| 0 <= i < j < s2.len() implies (#[trigger] s2[i]).0@ != (
    #[trigger] s2[j]).0@ by {
        assert(s[i].0@ != s[j].0@);
        if i == idx {
            assert(s2[i].0@ == s[idx].0@);
        } else if j == idx {
            assert(s2[j].0@ == s[idx].0@);
        }
    }
    assert forall|k: Seq<char>| entry_map(s2).contains_key(k) implies entry_map(s).insert(
        x.0@,
        x.1@,
    ).contains_key(k) && entry_map(s2)[k] == entry_map(s).insert(x.0@, x.1@)[k] by {
        let j = choose|i: int| 0 <= i < s2.len() && (#[trigger] s2[i]).0@ == k;
        if k == x.0@ {
            if j != idx {
                if j < idx {
                    assert(s[j].0@ != s[idx].0@);
                } else {
                    assert(s[idx].0@ != s[j].0@);
                }
            }
            assert(entry_map(s2)[k] == x.1@);
        } else {
            assert(j != idx);
            assert(0 <= j < s.len() && s[j].0@ == k);
            lemma_entry_map_at(s, j);
        }
    }
    assert forall|k: Seq<char>| entry_map(s).insert(x.0@, x.1@).contains_key(k) implies entry_map(
        s2,
    ).contains_key(k) by {
        if k == x.0@ {
            assert(0 <= idx < s2.len() && s2[idx].0@ == k);
        } else {
            let j = choose|i: int| 0 <= i < s.len() && (#[trigger] s[i]).0@ == k;
            assert(j != idx);
            assert(0 <= j < s2.len() && s2[j].0@ == k);
        }
    }
}

/// A duplicate-free association list denotes a map with one key per entry.
proof fn lemma_entry_map_dom_len(s: Seq<(String, Vec<u8>)>)
    requires
        unique_keys(s),
    ensures
        entry_map(s).dom().finite(),
        entry_map(s).dom().len() == s.len(),
    decreases s.len(),
{
    if s.len() == 0 {
        assert(entry_map(s).dom() =~= Set::<Seq<char>>::empty());
    } else {
        let s0 = s.drop_last();
        let x = s.last();
        assert(forall|i: int| 0 <= i < s0.len() ==> (#[trigger] s0[i]).0@ == s[i].0@);
        assert(forall|i: int|
            0 <= i < s0.len() ==> (#[trigger] s0[i]).0@ != x.0@) by {
            assert(forall|i: int|
                0 <= i < s0.len() ==> (#[trigger] s[i]).0@ != s[s.len() - 1].0@);
        }
        lemma_entry_map_dom_len(s0);
        lemma_entry_map_push(s0, x);
        assert(s0.push(x) =~= s);
        lemma_entry_map_absent(s0, x.0@);
        assert(entry_map(s).dom() =~= entry_map(s0).dom().insert(x.0@));
    }
}

/// The process-local backend: an in-memory association from identifier to
/// payload, with no expiry, bounded only by process memory.
pub struct InMemoryDb {
    entries: Vec<(String, Vec<u8>)>,
}

impl InMemoryDb {
    /// Creates an empty in-memory backend.
    pub fn init() -> (db: InMemoryDb)
        ensures
            db.inv(),
            db.records() == Map::<Seq<char>, Seq<u8>>::empty(),
    {
        let db = InMemoryDb { entries: Vec::new() };
        proof {
            assert(entry_map(db.entries@) =~= Map::<Seq<char>, Seq<u8>>::empty());
        }
        db
    }

    /// Number of records currently held.
    pub fn len(&self) -> (n: usize)
        requires
            self.inv(),
        ensures
            n == self.records().dom().len(),
    {
        proof {
            lemma_entry_map_dom_len(self.entries@);
        }
        self.entries.len()
    }

    /// Index of the entry holding `key`, if one does.
    fn find(&self, key: &String) -> (r: Option<usize>)
        ensures
            (match r {
                Some(i) => 0 <= i < self.entries@.len() && self.entries@[i as int].0@ == key@,
                None => forall|i: int|
                    0 <= i < self.entries@.len() ==> (#[trigger] self.entries@[i]).0@ != key@,
            }),
    {
        let mut i: usize = 0;
        while i < self.entries.len()
            invariant
                i <= self.entries@.len(),
                forall|j: int| 0 <= j < i ==> (#[trigger] self.entries@[j]).0@ != key@,
            decreases self.entries@.len() - i,
        {
            if self.entries[i].0 == *key {
                return Some(i);
            }
            i = i + 1;
        }
        None
    }
}

/// Copies a byte vector; the copy holds exactly the same bytes.
pub fn clone_bytes(v: &Vec<u8>) -> (r: Vec<u8>)
    ensures
        r@ == v@,
{
    let r = v.clone();
    proof {
        assert forall|i: int| 0 <= i < v@.len() implies r@[i] == v@[i] by {
            assert(cloned::<u8>(v@[i], r@[i]));
        }
        assert(r@ =~= v@);
    }
    r
}

impl Db for InMemoryDb {
    closed spec fn inv(&self) -> bool {
        unique_keys(self.entries@)
    }

    closed spec fn records(&self) -> Map<Seq<char>, Seq<u8>> {
        entry_map(self.entries@)
    }

    fn set(&mut self, data: Vec<u8>) -> (id: String) {
        let id = random_id();
        let ghost s_old = self.entries@;
        match self.find(&id) {
            Some(i) => {
                self.entries.set(i, (id.clone(), data));
                proof {
                    lemma_entry_map_update(s_old, i as int, self.entries@[i as int]);
                }
            },
            None => {
                self.entries.push((id.clone(), data));
                proof {
                    lemma_entry_map_push(s_old, self.entries@[s_old.len() as int]);
                    assert(s_old.push(self.entries@[s_old.len() as int]) =~= self.entries@);
                }
            },
        }
        id
    }

    fn get(&mut self, id: &str) -> (r: Option<Vec<u8>>) {
        let key = String::from_str(id);
        match self.find(&key) {
            Some(i) => {
                proof {
                    lemma_entry_map_at(self.entries@, i as int);
                }
                Some(clone_bytes(&self.entries[i].1))
            },
            None => {
                proof {
                    lemma_entry_map_absent(self.entries@, id@);
                }
                None
            },
        }
    }
}

/// Round trip: storing a payload and retrieving its identifier yields exactly
/// that payload, whatever records the backend held before.
pub proof fn lemma_store_then_retrieve(m: Map<Seq<char>, Seq<u8>>, id: Seq<char>, p: Seq<u8>)
    ensures
        m.insert(id, p).contains_key(id),
        m.insert(id, p)[id] == p,
{
}

/// Two stores under distinct identifiers yield two records, each
/// independently retrievable with its own payload.
pub proof fn lemma_distinct_stores_independent(
    m: Map<Seq<char>, Seq<u8>>,
    id1: Seq<char>,
    p1: Seq<u8>,
    id2: Seq<char>,
    p2: Seq<u8>,
)
    requires
        id1 != id2,
    ensures
        m.insert(id1, p1).insert(id2, p2).contains_key(id1),
        m.insert(id1, p1).insert(id2, p2).contains_key(id2),
        m.insert(id1, p1).insert(id2, p2)[id1] == p1,
        m.insert(id1, p1).insert(id2, p2)[id2] == p2,
{
}

} // verus!

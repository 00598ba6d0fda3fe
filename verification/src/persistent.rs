//! The persistent, networked backend's keyspace, modelled over an explicit
//! clock. Every record is stored under a key namespaced with a fixed prefix,
//! so that records cannot collide with unrelated data sharing the same
//! backend instance; every write attaches an expiry a fixed retention window
//! after the moment of write; and a read that races an expiry returns
//! nothing rather than stale data.
//!
//! The commands that maintain this keyspace on the wire are issued outside
//! the library, which computes the keys and the retention window here and
//! keeps this model as the verified statement of what those commands do.

use crate::utils::{random_id, valid_id};
use vstd::prelude::*;

verus! {

/// Seconds a persisted record lives from the moment of write: 30 days.
pub const EXPIRY_SECONDS: u64 = 60 * 60 * 24 * 30;

/// The fixed prefix every key carries.
pub open spec fn spec_key_prefix() -> Seq<char> {
    "jpaste:"@
}

/// The namespaced key a record with the given identifier is stored under.
pub open spec fn spec_redis_key(id: Seq<char>) -> Seq<char> {
    spec_key_prefix() + id
}

/// The namespaced key for an identifier: the fixed prefix followed by it.
pub fn redis_key(id: &str) -> (k: String)
    ensures
        k@ == spec_redis_key(id@),
{
    let mut k = String::from_str("jpaste:");
    k.append(id);
    k
}

/// What a retrieval of `id` at moment `now` finds in the keyspace `m`: the
/// payload stored under the namespaced key, where such a record exists and
/// its expiry has not yet passed, and nothing otherwise.
pub open spec fn spec_lookup(
    m: Map<Seq<char>, (Seq<u8>, u64)>,
    id: Seq<char>,
    now: u64,
) -> Option<Seq<u8>> {
    let key = spec_redis_key(id);
    if m.contains_key(key) && now < m[key].1 {
        Some(m[key].0)
    } else {
        None
    }
}

/// Keys of the association list are pairwise distinct.
spec fn unique_store_keys(s: Seq<(String, Vec<u8>, u64)>) -> bool {
    forall|i: int, j: int|
        0 <= i < j < s.len() ==> (#[trigger] s[i]).0@ != (#[trigger] s[j]).0@
}

/// The keyspace an association list of (key, payload, expiry) entries
/// denotes.
spec fn store_map(s: Seq<(String, Vec<u8>, u64)>) -> Map<Seq<char>, (Seq<u8>, u64)> {
    Map::new(
        |k: Seq<char>| exists|i: int| 0 <= i < s.len() && (#[trigger] s[i]).0@ == k,
        |k: Seq<char>|
            {
                let e = s[choose|i: int| 0 <= i < s.len() && (#[trigger] s[i]).0@ == k];
                (e.1@, e.2)
            },
    )
}

/// The entry at a given index of a duplicate-free association list is the
/// one its keyspace holds for that key.
proof fn lemma_store_map_at(s: Seq<(String, Vec<u8>, u64)>, idx: int)
    requires
        unique_store_keys(s),
        0 <= idx < s.len(),
    ensures
        store_map(s).contains_key(s[idx].0@),
        store_map(s)[s[idx].0@] == (s[idx].1@, s[idx].2),
{
    let k = s[idx].0@;
    assert(0 <= idx < s.len() && s[idx].0@ == k);
    let j = choose|i: int| 0 <= i < s.len() && (#[trigger] s[i]).0@ == k;
    if j < idx {
        assert(s[j].0@ != s[idx].0@);
    } else if idx < j {
        assert(s[idx].0@ != s[j].0@);
    }
}

/// A key under which no entry stands is not in the keyspace.
proof fn lemma_store_map_absent(s: Seq<(String, Vec<u8>, u64)>, k: Seq<char>)
    requires
        forall|i: int| 0 <= i < s.len() ==> (#[trigger] s[i]).0@ != k,
    ensures
        !store_map(s).contains_key(k),
{
}

/// Appending an entry with a fresh key inserts it into the keyspace.
proof fn lemma_store_map_push(s: Seq<(String, Vec<u8>, u64)>, x: (String, Vec<u8>, u64))
    requires
        unique_store_keys(s),
        forall|i: int| 0 <= i < s.len() ==> (#[trigger] s[i]).0@ != x.0@,
    ensures
        unique_store_keys(s.push(x)),
        store_map(s.push(x)) =~= store_map(s).insert(x.0@, (x.1@, x.2)),
{
    let s2 = s.push(x);
    assert forall|i: int, j: int| 0 <= i < j < s2.len() implies (#[trigger] s2[i]).0@ != (
    #[trigger] s2[j]).0@ by {
        if j < s.len() {
            assert(s[i].0@ != s[j].0@);
        } else {
            assert(s2[j] == x);
            assert(s[i].0@ != x.0@);
        }
    }
    assert forall|k: Seq<char>| store_map(s2).contains_key(k) implies store_map(s).insert(
        x.0@,
        (x.1@, x.2),
    ).contains_key(k) && store_map(s2)[k] == store_map(s).insert(x.0@, (x.1@, x.2))[k] by {
        let j = choose|i: int| 0 <= i < s2.len() && (#[trigger] s2[i]).0@ == k;
        if k == x.0@ {
            assert(j == s.len());
            assert(store_map(s2)[k] == (x.1@, x.2));
        } else {
            assert(j < s.len());
            assert(0 <= j < s.len() && s[j].0@ == k);
            lemma_store_map_at(s, j);
            let j2 = choose|i: int| 0 <= i < s.len() && (#[trigger] s[i]).0@ == k;
            if j != j2 {
                if j < j2 {
                    assert(s[j].0@ != s[j2].0@);
                } else {
                    assert(s[j2].0@ != s[j].0@);
                }
            }
        }
    }
    assert forall|k: Seq<char>| store_map(s).insert(x.0@, (x.1@, x.2)).contains_key(k)
        implies store_map(s2).contains_key(k) by {
        if k == x.0@ {
            assert(0 <= s.len() < s2.len() && s2[s.len() as int].0@ == k);
        } else {
            let j = choose|i: int| 0 <= i < s.len() && (#[trigger] s[i]).0@ == k;
            assert(0 <= j < s2.len() && s2[j].0@ == k);
        }
    }
}

/// Overwriting the entry that holds a key updates the keyspace at that key.
proof fn lemma_store_map_update(s: Seq<(String, Vec<u8>, u64)>, idx: int, x: (String, Vec<u8>, u64))
    requires
        unique_store_keys(s),
        0 <= idx < s.len(),
        s[idx].0@ == x.0@,
    ensures
        unique_store_keys(s.update(idx, x)),
        store_map(s.update(idx, x)) =~= store_map(s).insert(x.0@, (x.1@, x.2)),
{
    let s2 = s.update(idx, x);
    assert forall|i: int, j: int| 0 <= i < j < s2.len() implies (#[trigger] s2[i]).0@ != (
    #[trigger] s2[j]).0@ by {
        assert(s[i].0@ != s[j].0@);
        if i == idx {
            assert(s2[i].0@ == s[idx].0@);
        } else if j == idx {
            assert(s2[j].0@ == s[idx].0@);
        }
    }
    assert forall|k: Seq<char>| store_map(s2).contains_key(k) implies store_map(s).insert(
        x.0@,
        (x.1@, x.2),
    ).contains_key(k) && store_map(s2)[k] == store_map(s).insert(x.0@, (x.1@, x.2))[k] by {
        let j = choose|i: int| 0 <= i < s2.len() && (#[trigger] s2[i]).0@ == k;
        if k == x.0@ {
            if j != idx {
                if j < idx {
                    assert(s[j].0@ != s[idx].0@);
                } else {
                    assert(s[idx].0@ != s[j].0@);
                }
            }
            assert(store_map(s2)[k] == (x.1@, x.2));
        } else {
            assert(j != idx);
            assert(0 <= j < s.len() && s[j].0@ == k);
            lemma_store_map_at(s, j);
        }
    }
    assert forall|k: Seq<char>| store_map(s).insert(x.0@, (x.1@, x.2)).contains_key(k)
        implies store_map(s2).contains_key(k) by {
        if k == x.0@ {
            assert(0 <= idx < s2.len() && s2[idx].0@ == k);
        } else {
            let j = choose|i: int| 0 <= i < s.len() && (#[trigger] s[i]).0@ == k;
            assert(j != idx);
            assert(0 <= j < s2.len() && s2[j].0@ == k);
        }
    }
}

/// The persistent backend's keyspace over an explicit clock: records carry
/// the moment their retention window ends, and retrieval honors it.
pub struct PersistentStore {
    entries: Vec<(String, Vec<u8>, u64)>,
}

impl PersistentStore {
    /// Well-formedness: one entry per key.
    pub closed spec fn inv(&self) -> bool {
        unique_store_keys(self.entries@)
    }

    /// The records held, keyed by namespaced key, each with the moment its
    /// retention window ends.
    pub closed spec fn records(&self) -> Map<Seq<char>, (Seq<u8>, u64)> {
        store_map(self.entries@)
    }

    /// An empty keyspace.
    pub fn init() -> (s: PersistentStore)
        ensures
            s.inv(),
            s.records() == Map::<Seq<char>, (Seq<u8>, u64)>::empty(),
    {
        let s = PersistentStore { entries: Vec::new() };
        proof {
            assert(store_map(s.entries@) =~= Map::<Seq<char>, (Seq<u8>, u64)>::empty());
        }
        s
    }

    /// Index of the entry holding `key`, if one does.
    fn find(&self, key: &String) -> (r: Option<usize>)
        ensures
            (match r {
                Some(i) => 0 <= i < self.entries@.len() && self.entries@[i as int].0@ == key@,
                None => forall|i: int|
                    0 <= i < self.entries@.len() ==> (#[trigger] self.entries@[i]).0@ != key@,
            }),
    {
        let mut i: usize = 0;
        while i < self.entries.len()
            invariant
                i <= self.entries@.len(),
                forall|j: int| 0 <= j < i ==> (#[trigger] self.entries@[j]).0@ != key@,
            decreases self.entries@.len() - i,
        {
            if self.entries[i].0 == *key {
                return Some(i);
            }
            i = i + 1;
        }
        None
    }

    /// Stores `data` at moment `now` under a fresh random identifier,
    /// namespacing its key and attaching the expiry of the retention window,
    /// and returns the identifier.
    pub fn set(&mut self, data: Vec<u8>, now: u64) -> (id: String)
        requires
            old(self).inv(),
            now + EXPIRY_SECONDS <= u64::MAX,
        ensures
            final(self).inv(),
            valid_id(id@),
            final(self).records() == old(self).records().insert(
                spec_redis_key(id@),
                (data@, (now + EXPIRY_SECONDS) as u64),
            ),
    {
        let id = random_id();
        let key = redis_key(id.as_str());
        let expires_at = now + EXPIRY_SECONDS;
        let ghost s_old = self.entries@;
        match self.find(&key) {
            Some(i) => {
                self.entries.set(i, (key, data, expires_at));
                proof {
                    lemma_store_map_update(s_old, i as int, self.entries@[i as int]);
                }
            },
            None => {
                self.entries.push((key, data, expires_at));
                proof {
                    lemma_store_map_push(s_old, self.entries@[s_old.len() as int]);
                    assert(s_old.push(self.entries@[s_old.len() as int]) =~= self.entries@);
                }
            },
        }
        id
    }

    /// Retrieves the payload stored under `id` as of moment `now`: the
    /// stored bytes where the record exists and is unexpired, and `None`
    /// otherwise — in particular once the retention window has elapsed.
    pub fn get(&self, id: &str, now: u64) -> (r: Option<Vec<u8>>)
        requires
            self.inv(),
        ensures
            (match r {
                Some(v) => spec_lookup(self.records(), id@, now) == Some(v@),
                None => spec_lookup(self.records(), id@, now) is None,
            }),
    {
        let key = redis_key(id);
        match self.find(&key) {
            Some(i) => {
                proof {
                    lemma_store_map_at(self.entries@, i as int);
                }
                if now < self.entries[i].2 {
                    Some(crate::db::clone_bytes(&self.entries[i].1))
                } else {
                    None
                }
            },
            None => {
                proof {
                    lemma_store_map_absent(self.entries@, key@);
                }
                None
            },
        }
    }
}

/// A record stored at moment `written` stays retrievable, with exactly its
/// payload, at any moment within the retention window.
pub proof fn lemma_fresh_record_retrievable(
    m: Map<Seq<char>, (Seq<u8>, u64)>,
    id: Seq<char>,
    data: Seq<u8>,
    written: u64,
    now: u64,
)
    requires
        written + EXPIRY_SECONDS <= u64::MAX,
        now < written + EXPIRY_SECONDS,
    ensures
        spec_lookup(
            m.insert(spec_redis_key(id), (data, (written + EXPIRY_SECONDS) as u64)),
            id,
            now,
        ) == Some(data),
{
}

/// A record stored at moment `written` is no longer retrievable at any
/// moment once the retention window has elapsed.
pub proof fn lemma_expired_record_gone(
    m: Map<Seq<char>, (Seq<u8>, u64)>,
    id: Seq<char>,
    data: Seq<u8>,
    written: u64,
    now: u64,
)
    requires
        written + EXPIRY_SECONDS <= u64::MAX,
        now >= written + EXPIRY_SECONDS,
    ensures
        spec_lookup(
            m.insert(spec_redis_key(id), (data, (written + EXPIRY_SECONDS) as u64)),
            id,
            now,
        ) is None,
{
}

} // verus!

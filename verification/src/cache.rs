//! Small TTL cache used for search results and provider failures.
//!
//! Entries carry the instant they were stored; an entry older than the
//! cache's time-to-live is treated as absent and dropped when met.

use vstd::prelude::*;
use core::hash::Hash;
use std::collections::HashMap;
use std::time::Instant;
use vstd::std_specs::hash::obeys_key_model;
use crate::clock::{duration_nanos, elapsed_since, instant_now};

verus! {

broadcast use vstd::std_specs::hash::group_hash_axioms;

/// Entries beyond this count trigger a sweep of expired entries on `put`.
pub const SWEEP_THRESHOLD: usize = 256;

/// What a lookup of `key` did to the entries `before`, leaving `after` and
/// answering `r`: a live entry is answered with a clone of its value and
/// everything stays; otherwise the answer is `None` and the key is gone.
pub open spec fn read_outcome<K, V: Clone>(
    before: Map<K, (Instant, V)>,
    after: Map<K, (Instant, V)>,
    key: K,
    r: Option<V>,
) -> bool {
    match r {
        Some(v) => {
            &&& before.contains_key(key)
            &&& cloned(before[key].1, v)
            &&& after == before
        },
        None => after == before.remove(key),
    }
}

/// What storing `value` under `key` did to the entries `before`, leaving
/// `after`: the key holds the value (with a fresh instant), no other entry
/// was added or changed, and without a sweep nothing else was dropped.
pub open spec fn write_outcome<K, V>(
    before: Map<K, (Instant, V)>,
    after: Map<K, (Instant, V)>,
    key: K,
    value: V,
) -> bool {
    &&& after.contains_key(key)
    &&& after[key].1 == value
    &&& after.remove(key) <= before.remove(key)
    &&& before.len() <= SWEEP_THRESHOLD ==> after == before.insert(key, after[key])
}

/// A lookup right after storing a value answers with a clone of that value,
/// or, when the entry already outlived the time-to-live, with `None`, and
/// then no entry for the key remains.
pub proof fn lemma_read_after_write<K, V: Clone>(
    e0: Map<K, (Instant, V)>,
    e1: Map<K, (Instant, V)>,
    e2: Map<K, (Instant, V)>,
    key: K,
    value: V,
    r: Option<V>,
)
    requires
        write_outcome(e0, e1, key, value),
        read_outcome(e1, e2, key, r),
    ensures
        r matches Some(v) ==> cloned(value, v),
        r is None ==> !e2.contains_key(key),
{
}

/// What answering a lookup of `key`, whose entry was measured `age` old,
/// did under the time-to-live `ttl`: a value comes back exactly when the
/// key is stored and younger than `ttl`, as `read_outcome` describes.
pub open spec fn answer_outcome<K, V: Clone>(
    before: Map<K, (Instant, V)>,
    after: Map<K, (Instant, V)>,
    key: K,
    ttl: nat,
    age: u128,
    r: Option<V>,
) -> bool {
    &&& (r is Some <==> (before.contains_key(key) && age < ttl))
    &&& read_outcome(before, after, key, r)
}

/// A value stored and then looked up while younger than the time-to-live
/// comes back (a clone of it) and stays cached; looked up once it is as old
/// as the time-to-live, it is gone.
pub proof fn lemma_live_entry_is_served<K, V: Clone>(
    e0: Map<K, (Instant, V)>,
    e1: Map<K, (Instant, V)>,
    e2: Map<K, (Instant, V)>,
    key: K,
    value: V,
    ttl: nat,
    age: u128,
    r: Option<V>,
)
    requires
        write_outcome(e0, e1, key, value),
        answer_outcome(e1, e2, key, ttl, age, r),
    ensures
        age < ttl ==> (r matches Some(v) && cloned(value, v) && e2 == e1),
        age >= ttl ==> (r is None && !e2.contains_key(key)),
{
}

/// The keys that a sweep with measured `ages` finds expired under the
/// time-to-live `ttl` (nanoseconds): those measured at least `ttl` old.
pub open spec fn expired_keys<K>(ages: Seq<(K, u128)>, ttl: nat) -> Set<K> {
    Set::new(|k: K| exists|i: int| 0 <= i < ages.len() && ages[i].0 == k && ages[i].1 >= ttl)
}

pub struct TtlCache<K, V> {
    ttl_nanos: u128,
    map: HashMap<K, (Instant, V)>,
}

impl<K: Eq + Hash + Clone, V: Clone> TtlCache<K, V> {
    /// The stored entries: each key with the instant it was stored and its value.
    pub closed spec fn entries(&self) -> Map<K, (Instant, V)> {
        self.map@
    }

    /// The time-to-live, in nanoseconds: an entry is served while its age
    /// is below it.
    pub closed spec fn ttl(&self) -> nat {
        self.ttl_nanos as nat
    }

    /// An empty cache whose entries live for `ttl_nanos` nanoseconds.
    pub fn new(ttl_nanos: u128) -> (r: Self)
        ensures
            r.entries() == Map::<K, (Instant, V)>::empty(),
            r.ttl() == ttl_nanos,
    {
        TtlCache { ttl_nanos, map: HashMap::new() }
    }

    /// The answer to a lookup of `key` whose entry was measured `age_nanos`
    /// old: a clone of the value while the age is below the time-to-live,
    /// else `None`, and then the entry is removed.
    pub fn answer(&mut self, key: &K, age_nanos: u128) -> (r: Option<V>)
        ensures
            final(self).ttl() == old(self).ttl(),
            r is Some ==> age_nanos < old(self).ttl(),
            obeys_key_model::<K>() ==> answer_outcome(
                old(self).entries(),
                final(self).entries(),
                *key,
                old(self).ttl(),
                age_nanos,
                r,
            ),
    {
        if age_nanos < self.ttl_nanos {
            match self.map.get(key) {
                Some(entry) => {
                    return Some(entry.1.clone());
                },
                None => {
                    proof {
                        if obeys_key_model::<K>() {
                            assert(self.map@.remove(*key) =~= self.map@);
                        }
                    }
                    return None;
                },
            }
        }
        self.map.remove(key);
        None
    }

    /// The value stored under `key`, unless it has outlived the time-to-live;
    /// an expired entry is removed. The entry's age is read from the clock
    /// and handed to `answer`.
    pub fn get(&mut self, key: &K) -> (r: Option<V>)
        ensures
            final(self).ttl() == old(self).ttl(),
            r is Some ==> old(self).ttl() > 0,
            obeys_key_model::<K>() ==> read_outcome(old(self).entries(), final(self).entries(), *key, r),
    {
        let age: u128 = match self.map.get(key) {
            Some(entry) => {
                let elapsed = elapsed_since(&entry.0);
                duration_nanos(&elapsed)
            },
            None => {
                proof {
                    if obeys_key_model::<K>() {
                        assert(self.map@.remove(*key) =~= self.map@);
                    }
                }
                return None;
            },
        };
        self.answer(key, age)
    }

    /// Drop the entries that a sweep measured as expired: every key that
    /// `ages` lists with an age of at least the time-to-live. Other entries
    /// stay as they are.
    pub fn sweep_expired(&mut self, ages: &Vec<(K, u128)>)
        ensures
            final(self).ttl() == old(self).ttl(),
            obeys_key_model::<K>() ==> final(self).entries() == old(self).entries().remove_keys(
                expired_keys(ages@, old(self).ttl()),
            ),
    {
        let ghost before = self.map@;
        let ghost ttl = self.ttl_nanos as nat;
        proof {
            assert(expired_keys(ages@.take(0), ttl) =~= Set::<K>::empty());
            assert(before.remove_keys(Set::<K>::empty()) =~= before);
        }
        let mut i: usize = 0;
        while i < ages.len()
            invariant
                i <= ages@.len(),
                ttl == self.ttl_nanos as nat,
                obeys_key_model::<K>() ==> self.map@ == before.remove_keys(expired_keys(ages@.take(i as int), ttl)),
            decreases ages@.len() - i,
        {
            let ghost prev = self.map@;
            let ghost t0 = ages@.take(i as int);
            let ghost t1 = ages@.take(i + 1);
            let ghost s = expired_keys(t0, ttl);
            let ghost k = ages@[i as int].0;
            proof {
                assert forall|j: int| 0 <= j < i implies #[trigger] t1[j] == t0[j] by {}
                assert(t1[i as int] == ages@[i as int]);
            }
            if ages[i].1 >= self.ttl_nanos {
                self.map.remove(&ages[i].0);
                proof {
                    assert(expired_keys(t1, ttl) =~= s.insert(k)) by {
                        assert forall|x: K| #[trigger] s.insert(k).contains(x) implies expired_keys(t1, ttl).contains(x) by {
                            if x == k {
                                assert(t1[i as int].0 == x && t1[i as int].1 >= ttl);
                            } else {
                                let j = choose|j: int| 0 <= j < t0.len() && (#[trigger] t0[j]).0 == x && t0[j].1 >= ttl;
                                assert(t1[j] == t0[j]);
                            }
                        }
                        assert forall|x: K| #[trigger] expired_keys(t1, ttl).contains(x) implies s.insert(k).contains(x) by {
                            let j = choose|j: int| 0 <= j < t1.len() && (#[trigger] t1[j]).0 == x && t1[j].1 >= ttl;
                            if j < i {
                                assert(t0[j] == t1[j]);
                            }
                        }
                    }
                    if obeys_key_model::<K>() {
                        assert(before.remove_keys(s.insert(k)) =~= prev.remove(k));
                    }
                }
            } else {
                proof {
                    assert(expired_keys(t1, ttl) =~= s) by {
                        assert forall|x: K| #[trigger] s.contains(x) implies expired_keys(t1, ttl).contains(x) by {
                            let j = choose|j: int| 0 <= j < t0.len() && (#[trigger] t0[j]).0 == x && t0[j].1 >= ttl;
                            assert(t1[j] == t0[j]);
                        }
                        assert forall|x: K| #[trigger] expired_keys(t1, ttl).contains(x) implies s.contains(x) by {
                            let j = choose|j: int| 0 <= j < t1.len() && (#[trigger] t1[j]).0 == x && t1[j].1 >= ttl;
                            assert(j != i);
                            assert(t0[j] == t1[j]);
                        }
                    }
                }
            }
            i += 1;
        }
        proof {
            assert(ages@.take(ages@.len() as int) =~= ages@);
        }
    }

    /// Store `value` under `key`, stamped with the current instant. When the
    /// cache holds more than `SWEEP_THRESHOLD` entries, every entry's age is
    /// measured first and `sweep_expired` drops the expired ones: apart from
    /// `key`, the entries left are those of some measurement of ages minus
    /// the keys measured at least the time-to-live old (the ages are clock
    /// readings, so only their existence is stated). Requires keys that
    /// behave as values under `Eq`, `Hash` and `Clone` (the model behind the
    /// map's contract).
    pub fn put(&mut self, key: K, value: V)
        requires
            obeys_key_model::<K>(),
        ensures
            final(self).ttl() == old(self).ttl(),
            write_outcome(old(self).entries(), final(self).entries(), key, value),
            exists|ages: Seq<(K, u128)>|
                #![trigger expired_keys(ages, old(self).ttl())]
                final(self).entries().remove(key) == old(self).entries().remove_keys(
                    expired_keys(ages, old(self).ttl()),
                ).remove(key),
    {
        let ghost before = self.map@;
        let ghost ttl = self.ttl_nanos as nat;
        let ghost mut measured: Seq<(K, u128)> = Seq::empty();
        proof {
            assert(expired_keys(measured, ttl) =~= Set::<K>::empty());
            assert(before.remove_keys(Set::<K>::empty()) =~= before);
        }
        if self.map.len() > SWEEP_THRESHOLD {
            let mut ages: Vec<(K, u128)> = Vec::new();
            for kv in self.map.iter() {
                let elapsed = elapsed_since(&(kv.1).0);
                ages.push((kv.0.clone(), duration_nanos(&elapsed)));
            }
            self.sweep_expired(&ages);
            proof {
                measured = ages@;
            }
        }
        let now = instant_now();
        let ghost mid = self.map@;
        self.map.insert(key, (now, value));
        proof {
            assert(mid == before.remove_keys(expired_keys(measured, ttl)));
            assert(mid <= before);
            assert(self.map@.remove(key) =~= mid.remove(key));
            assert(self.map@.remove(key) <= before.remove(key));
            assert(self.map@[key] == (now, value));
            if before.len() <= SWEEP_THRESHOLD {
                assert(mid == before);
            }
            assert(self.map@.remove(key) == before.remove_keys(expired_keys(measured, ttl)).remove(key));
        }
    }

    /// Whether a live value is stored under `key`, as `get` would answer at
    /// the same moment; an expired entry is removed.
    pub fn contains(&mut self, key: &K) -> (r: bool)
        ensures
            final(self).ttl() == old(self).ttl(),
            r ==> old(self).ttl() > 0,
            obeys_key_model::<K>() ==> if r {
                &&& old(self).entries().contains_key(*key)
                &&& final(self).entries() == old(self).entries()
            } else {
                final(self).entries() == old(self).entries().remove(*key)
            },
    {
        self.get(key).is_some()
    }
}

} // verus!

use std::collections::HashMap;
use std::hash::Hash;
use std::time::Instant;
use crate::clock::{instant_now, instant_elapsed, duration_secs};
use vstd::prelude::*;
use vstd::std_specs::hash::obeys_key_model;

verus! {

broadcast use vstd::std_specs::hash::group_hash_axioms;

/// Whether an entry of age `age_secs` whole seconds is still served under a lifetime of
/// `ttl_secs` seconds. An age below a whole number of seconds is below it exactly when
/// its whole seconds are, so this is the comparison of the two times.
pub fn is_live(age_secs: u64, ttl_secs: u64) -> (r: bool)
    ensures
        r == (age_secs < ttl_secs),
{
    age_secs < ttl_secs
}

/// Whether a cache holding `m` with lifetime `ttl` serves the value under `k` when its entry
/// is `age` whole seconds old.
pub open spec fn cache_serves<K, V>(m: Map<K, V>, k: K, age: u64, ttl: u64) -> bool {
    m.contains_key(k) && age < ttl
}

/// A map whose entries are served for a limited time after they were written.
pub struct Cache<K, V> {
    data: HashMap<K, (V, Instant)>,
    ttl_secs: u64,
}

impl<K, V> View for Cache<K, V> {
    type V = Map<K, V>;

    /// The values written, by key, whether or not they are still served.
    closed spec fn view(&self) -> Map<K, V> {
        self.data@.map_values(|e: (V, Instant)| e.0)
    }
}

impl<K: Eq + Hash, V> Cache<K, V> {
    /// The lifetime of an entry, in seconds.
    pub closed spec fn ttl(&self) -> u64 {
        self.ttl_secs
    }

    pub fn new(ttl_secs: u64) -> (r: Self)
        ensures
            r@ == Map::<K, V>::empty(),
            r.ttl() == ttl_secs,
    {
        let r = Cache { data: HashMap::new(), ttl_secs };
        assert(r@ =~= Map::<K, V>::empty());
        r
    }

    /// The value under `key` when its entry is `age_secs` whole seconds old: the value written
    /// under `key` while that age is below the lifetime, nothing otherwise.
    pub fn get_aged(&self, key: &K, age_secs: u64) -> (r: Option<&V>)
        ensures
            obeys_key_model::<K>() ==> r == (if cache_serves(self@, *key, age_secs, self.ttl()) {
                Some(&self@[*key])
            } else {
                None
            }),
            self.ttl() == 0 ==> r is None,
    {
        match self.data.get(key) {
            Some(entry) => {
                if is_live(age_secs, self.ttl_secs) {
                    Some(&entry.0)
                } else {
                    None
                }
            },
            None => None,
        }
    }

    /// The age in whole seconds of the entry under `key`, measured on the clock now; nothing
    /// for a key that was never written.
    fn entry_age(&self, key: &K) -> (r: Option<u64>)
        ensures
            obeys_key_model::<K>() ==> (r is Some <==> self@.contains_key(*key)),
    {
        match self.data.get(key) {
            Some(entry) => {
                let age = instant_elapsed(&entry.1);
                Some(duration_secs(&age))
            },
            None => None,
        }
    }

    /// The value under `key`, while it is younger than the lifetime: `get_aged` with the age
    /// of its entry as the clock gives it now, so that the value is served exactly when that
    /// age is below the lifetime. Nothing comes back for a key that was never written.
    pub fn get(&self, key: &K) -> (r: Option<&V>)
        ensures
            obeys_key_model::<K>() ==> exists|age: u64| r == (if #[trigger] cache_serves(self@, *key, age, self.ttl()) {
                Some(&self@[*key])
            } else {
                None
            }),
            obeys_key_model::<K>() ==> match r {
                Some(v) => self@.contains_key(*key) && *v == self@[*key],
                None => true,
            },
            obeys_key_model::<K>() && !self@.contains_key(*key) ==> r is None,
            self.ttl() == 0 ==> r is None,
    {
        match self.entry_age(key) {
            Some(age) => self.get_aged(key, age),
            None => {
                proof {
                    if obeys_key_model::<K>() {
                        assert(!cache_serves(self@, *key, 0u64, self.ttl()));
                    }
                }
                None
            },
        }
    }

    /// Writes `value` under `key`, stamped with the current time.
    pub fn insert(&mut self, key: K, value: V)
        ensures
            obeys_key_model::<K>() ==> final(self)@ == old(self)@.insert(key, value),
            final(self).ttl() == old(self).ttl(),
    {
        let stamp = instant_now();
        self.data.insert(key, (value, stamp));
        proof {
            if obeys_key_model::<K>() {
                assert(self@ =~= old(self)@.insert(key, value));
            }
        }
    }

    pub fn remove(&mut self, key: &K)
        ensures
            obeys_key_model::<K>() ==> final(self)@ == old(self)@.remove(*key),
            final(self).ttl() == old(self).ttl(),
    {
        self.data.remove(key);
        proof {
            if obeys_key_model::<K>() {
                assert(self@ =~= old(self)@.remove(*key));
            }
        }
    }

    pub fn clear(&mut self)
        ensures
            final(self)@ == Map::<K, V>::empty(),
            final(self).ttl() == old(self).ttl(),
    {
        self.data.clear();
        assert(self@ =~= Map::<K, V>::empty());
    }
}

} // verus!

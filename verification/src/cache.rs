//! A key/value store with per-entry expiration.
//!
//! Expiry is lazy: it is evaluated at read time and an expired entry may
//! still physically occupy the store.  A write inserts only when a read at
//! the same instant would miss; when a concurrent writer has already put a
//! fresh value under the same key, the new write is silently dropped (both
//! writers computed the same answer for the same window, so the race is
//! benign).  There is no size bound and no active eviction: memory grows
//! with the number of distinct keys ever stored, a deliberate simplicity
//! trade-off the operator must carry as a capacity risk.
//!
//! The store itself has no clock: callers pass the current time `now` in,
//! so the whole expiry logic is ordinary verified code.

use vstd::prelude::*;

verus! {

/// The fields that discriminate one query from another.  Two queries are
/// equivalent exactly when their keys are equal, which for this composite
/// of plain fields is field-wise equality.
///
/// The raw-listings namespace discriminates on `location` and `item_id`
/// only; its keys leave `amount` zero and `hq` false.  The two namespaces
/// live in two separate [`TtlCache`] instances.
#[derive(Clone, Copy, PartialEq, Eq, Structural, Hash, Debug)]
pub struct CacheKey {
    pub location: u64,
    pub item_id: u64,
    pub amount: u64,
    pub hq: bool,
}

/// A stored value together with the instant after which it no longer
/// counts: the entry is fresh at `now` exactly when `now <= expires_at`.
pub struct CacheEntry<V> {
    pub value: V,
    pub expires_at: u64,
}

/// The store: a sequence of entries with pairwise distinct keys, abstracted
/// to a map from key to (value view, expiration instant).
pub struct TtlCache<V> {
    entries: Vec<(CacheKey, CacheEntry<V>)>,
}

/// The map a sequence of entries denotes.
pub closed spec fn as_map<V: View>(s: Seq<(CacheKey, CacheEntry<V>)>) -> Map<
    CacheKey,
    (V::V, u64),
>
    decreases s.len(),
{
    if s.len() == 0 {
        Map::empty()
    } else {
        as_map(s.drop_last()).insert(
            s.last().0,
            (s.last().1.value.view(), s.last().1.expires_at),
        )
    }
}

spec fn keys_distinct<V>(s: Seq<(CacheKey, CacheEntry<V>)>) -> bool {
    forall|i: int, j: int|
        0 <= i < j < s.len() ==> (#[trigger] s[i]).0 != (#[trigger] s[j]).0
}

/// The key is present and has not expired at `now`.
pub open spec fn fresh_at<T>(m: Map<CacheKey, (T, u64)>, k: CacheKey, now: u64) -> bool {
    m.contains_key(k) && now <= m[k].1
}

/// What a write does to the store: nothing when the key is still fresh,
/// otherwise it binds the key to the value until `now + ttl`.
pub open spec fn set_spec<T>(
    m: Map<CacheKey, (T, u64)>,
    k: CacheKey,
    v: T,
    now: u64,
    ttl: u64,
) -> Map<CacheKey, (T, u64)> {
    if fresh_at(m, k, now) {
        m
    } else {
        m.insert(k, (v, (now + ttl) as u64))
    }
}

impl<V: View> View for TtlCache<V> {
    type V = Map<CacheKey, (V::V, u64)>;

    closed spec fn view(&self) -> Map<CacheKey, (V::V, u64)> {
        as_map(self.entries@)
    }
}

proof fn lemma_as_map_index<V: View>(s: Seq<(CacheKey, CacheEntry<V>)>, k: CacheKey)
    requires
        keys_distinct(s),
    ensures
        as_map(s).contains_key(k) <==> exists|i: int| 0 <= i < s.len() && (#[trigger] s[i]).0 == k,
        forall|i: int|
            0 <= i < s.len() && (#[trigger] s[i]).0 == k ==> as_map(s)[k] == (
                s[i].1.value.view(),
                s[i].1.expires_at,
            ),
    decreases s.len(),
{
    if s.len() > 0 {
        let d = s.drop_last();
        assert(keys_distinct(d)) by {
            assert(forall|i: int| 0 <= i < d.len() ==> d[i] == s[i]);
        }
        lemma_as_map_index(d, k);
        if s.last().0 == k {
            assert(s[s.len() - 1].0 == k);
            assert(forall|i: int| 0 <= i < s.len() - 1 ==> (#[trigger] s[i]).0 != k);
        } else {
            assert(forall|i: int| 0 <= i < s.len() - 1 ==> d[i] == s[i]);
            assert((exists|i: int| 0 <= i < d.len() && (#[trigger] d[i]).0 == k) <==> (exists|
                i: int,
            |
                0 <= i < s.len() && (#[trigger] s[i]).0 == k)) by {
                if exists|i: int| 0 <= i < s.len() && (#[trigger] s[i]).0 == k {
                    let i = choose|i: int| 0 <= i < s.len() && (#[trigger] s[i]).0 == k;
                    assert(i < s.len() - 1);
                    assert(d[i].0 == k);
                }
            }
        }
    }
}

proof fn lemma_as_map_update<V: View>(
    s: Seq<(CacheKey, CacheEntry<V>)>,
    i: int,
    e: (CacheKey, CacheEntry<V>),
)
    requires
        keys_distinct(s),
        0 <= i < s.len(),
        s[i].0 == e.0,
    ensures
        as_map(s.update(i, e)) == as_map(s).insert(e.0, (e.1.value.view(), e.1.expires_at)),
    decreases s.len(),
{
    let s2 = s.update(i, e);
    if i == s.len() - 1 {
        assert(s2.drop_last() =~= s.drop_last());
        assert(as_map(s2) =~= as_map(s).insert(e.0, (e.1.value.view(), e.1.expires_at)));
    } else {
        let d = s.drop_last();
        assert(keys_distinct(d)) by {
            assert(forall|j: int| 0 <= j < d.len() ==> d[j] == s[j]);
        }
        lemma_as_map_update(d, i, e);
        assert(s2.drop_last() =~= d.update(i, e));
        assert(s2.last() == s.last());
        // the touched key differs from the last entry's key
        assert(s[i].0 != s.last().0);
        assert(as_map(s2) =~= as_map(s).insert(e.0, (e.1.value.view(), e.1.expires_at)));
    }
}

impl<V: View> TtlCache<V> {
    /// Entries never repeat a key, so the sequence denotes a map.
    pub closed spec fn wf(&self) -> bool {
        keys_distinct(self.entries@)
    }

    /// An empty store.
    pub fn new() -> (r: Self)
        ensures
            r.wf(),
            r@ == Map::<CacheKey, (V::V, u64)>::empty(),
    {
        TtlCache { entries: Vec::new() }
    }

    fn index_of(&self, k: &CacheKey) -> (r: Option<usize>)
        requires
            self.wf(),
        ensures
            match r {
                Some(i) => i < self.entries@.len() && self.entries@[i as int].0 == *k
                    && self@.contains_key(*k) && self@[*k] == (
                    self.entries@[i as int].1.value.view(),
                    self.entries@[i as int].1.expires_at,
                ),
                None => !self@.contains_key(*k),
            },
    {
        proof {
            lemma_as_map_index(self.entries@, *k);
        }
        let mut i: usize = 0;
        while i < self.entries.len()
            invariant
                self.wf(),
                i <= self.entries@.len(),
                forall|j: int| 0 <= j < i ==> (#[trigger] self.entries@[j]).0 != *k,
            decreases self.entries@.len() - i,
        {
            if self.entries[i].0 == *k {
                proof {
                    lemma_as_map_index(self.entries@, *k);
                }
                return Some(i);
            }
            i = i + 1;
        }
        None
    }

    /// A read at instant `now`: the stored value when the key is present
    /// and unexpired, a miss otherwise.  An expired entry is left in
    /// place; it merely stops answering.
    pub fn get(&self, k: &CacheKey, now: u64) -> (r: Option<&V>)
        requires
            self.wf(),
        ensures
            match r {
                Some(v) => fresh_at(self@, *k, now) && v.view() == self@[*k].0,
                None => !fresh_at(self@, *k, now),
            },
    {
        match self.index_of(k) {
            Some(i) => {
                if now <= self.entries[i].1.expires_at {
                    Some(&self.entries[i].1.value)
                } else {
                    None
                }
            },
            None => None,
        }
    }

    /// A write at instant `now`, keeping the value until `now + ttl`.  It
    /// inserts only when a read at `now` would miss; a still-fresh entry
    /// wins over the incoming value and the write is dropped.
    pub fn set(&mut self, k: CacheKey, value: V, now: u64, ttl: u64)
        requires
            old(self).wf(),
            now + ttl <= u64::MAX,
        ensures
            final(self).wf(),
            final(self)@ == set_spec(old(self)@, k, value@, now, ttl),
    {
        let ghost s0 = self.entries@;
        match self.index_of(&k) {
            Some(i) => {
                if now <= self.entries[i].1.expires_at {
                    // fresh: the earlier writer wins
                } else {
                    let entry = CacheEntry { value, expires_at: now + ttl };
                    self.entries[i] = (k, entry);
                    proof {
                        lemma_as_map_update(
                            s0,
                            i as int,
                            (k, CacheEntry { value: value, expires_at: (now + ttl) as u64 }),
                        );
                        assert(keys_distinct(self.entries@)) by {
                            assert(forall|j: int|
                                0 <= j < s0.len() && j != i ==> self.entries@[j] == s0[j]);
                        }
                    }
                }
            },
            None => {
                let entry = CacheEntry { value, expires_at: now + ttl };
                self.entries.push((k, entry));
                proof {
                    let s1 = self.entries@;
                    assert(s1.drop_last() =~= s0);
                    lemma_as_map_index(s0, k);
                    assert(keys_distinct(s1)) by {
                        assert(forall|j: int| 0 <= j < s0.len() ==> s1[j] == s0[j]);
                        assert(forall|j: int|
                            0 <= j < s0.len() ==> (#[trigger] s1[j]).0 != k) by {
                            assert(forall|j: int|
                                0 <= j < s0.len() && s0[j].0 == k ==> as_map(s0).contains_key(k));
                        }
                    }
                }
            },
        }
    }
}

/// Time-to-live, stated of the abstract store: a value written at `now`
/// (over a key that was not fresh) answers every read up to and including
/// `now + ttl` with that value, and no read after `now + ttl`.
pub proof fn lemma_ttl_expiry<T>(
    m: Map<CacheKey, (T, u64)>,
    k: CacheKey,
    v: T,
    now: u64,
    ttl: u64,
    later: u64,
)
    requires
        !fresh_at(m, k, now),
        now + ttl <= u64::MAX,
    ensures
        later <= now + ttl ==> fresh_at(set_spec(m, k, v, now, ttl), k, later) && set_spec(
            m,
            k,
            v,
            now,
            ttl,
        )[k].0 == v,
        later > now + ttl ==> !fresh_at(set_spec(m, k, v, now, ttl), k, later),
{
}

} // verus!

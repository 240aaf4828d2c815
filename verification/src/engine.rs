//! The query engine: the result cache, the listings cache and the
//! request-coalescing layer, driven as a state machine.
//!
//! The engine itself is sequential: the embedding program holds it behind
//! its own mutual exclusion and supplies the current time.  One query is
//! served in three moves.  [`Engine::begin_query`] answers from the result
//! cache, joins a pending computation, or claims the right to start one.
//! A caller that was told to start obtains listings (through
//! [`Engine::cached_listings`], [`Engine::store_listings`] and its own
//! fetch), runs the search with the quality fallback through the pure
//! [`compute_answer`], and hands the outcome to [`Engine::store_answer`],
//! which stores it and releases the computation slot; on a failed fetch
//! [`Engine::fail_job`] releases the slot without storing, so a later
//! query can retry.  [`Engine::finish_job`] is the two steps in one call.
//! Locks in the embedding program are held only around the engine calls,
//! never across a fetch, an await or the search itself, so one slow
//! computation never serializes queries for unrelated keys.
//!
//! All guarantees are stated over [`EngineModel`], the abstract state, and
//! the pure transition functions [`begin_kind`] and [`begin_step`], so
//! laws about sequences of queries are theorems about the model.

use vstd::prelude::*;

use crate::cache::{fresh_at, set_spec, CacheKey, TtlCache};
use crate::listing::{clone_listings, Listing};
use crate::search::{
    filter_hq, find_cheapest_combination, hq_only, is_combo, no_feasible, qty_of, search_run,
    select,
};

verus! {

/// Computed combination answers stay valid this long (seconds).
pub const RESULTS_TTL_SECS: u64 = 3600;

/// One combination query: which item, where, how many units, and whether
/// only high-quality stock may be used.
#[derive(Clone, Copy, PartialEq, Eq, Structural, Hash, Debug)]
pub struct Query {
    pub item_id: u64,
    pub location: u64,
    pub amount: u64,
    pub want_hq: bool,
}

/// The key a query's combination answer is cached under.
pub open spec fn combination_key_of(q: Query) -> CacheKey {
    CacheKey { location: q.location, item_id: q.item_id, amount: q.amount, hq: q.want_hq }
}

/// The key a query's raw listings are cached under: listings do not
/// depend on the amount or the quality restriction.
pub open spec fn listings_key_of(q: Query) -> CacheKey {
    CacheKey { location: q.location, item_id: q.item_id, amount: 0, hq: false }
}

/// The same query without the quality restriction.
pub open spec fn without_hq(q: Query) -> Query {
    Query { want_hq: false, ..q }
}

impl Query {
    /// Builds the combination-result cache key.
    pub fn combination_key(&self) -> (k: CacheKey)
        ensures
            k == combination_key_of(*self),
    {
        CacheKey {
            location: self.location,
            item_id: self.item_id,
            amount: self.amount,
            hq: self.want_hq,
        }
    }

    /// Builds the raw-listings cache key.
    pub fn listings_key(&self) -> (k: CacheKey)
        ensures
            k == listings_key_of(*self),
    {
        CacheKey { location: self.location, item_id: self.item_id, amount: 0, hq: false }
    }

    /// Drops the quality restriction.
    pub fn to_any_quality(&self) -> (r: Query)
        ensures
            r == without_hq(*self),
    {
        Query {
            item_id: self.item_id,
            location: self.location,
            amount: self.amount,
            want_hq: false,
        }
    }

    /// The amount window the service accepts.
    pub fn amount_in_range(&self) -> (r: bool)
        ensures
            r == (1 <= self.amount <= 1000),
    {
        1 <= self.amount && self.amount <= 1000
    }
}

/// The abstract engine state: the two cache namespaces as maps from key to
/// (stored listings, expiration instant), and the set of keys with a
/// computation in flight.
#[verifier::ext_equal]
pub ghost struct EngineModel {
    pub listings: Map<CacheKey, (Seq<Listing>, u64)>,
    pub results: Map<CacheKey, (Seq<Listing>, u64)>,
    pub jobs: Set<CacheKey>,
}

/// What a query's first move is, in the abstract: answered from the cache,
/// joined to a pending computation, or obliged to start one.
pub enum StepKind {
    Hit,
    Join,
    Start,
}

/// The verdict [`Engine::begin_query`] reaches on state `m` at instant
/// `now`: the cache wins over a pending job, a pending job over starting.
pub open spec fn begin_kind(m: EngineModel, q: Query, now: u64) -> StepKind {
    if fresh_at(m.results, combination_key_of(q), now) {
        StepKind::Hit
    } else if m.jobs.contains(combination_key_of(q)) {
        StepKind::Join
    } else {
        StepKind::Start
    }
}

/// The state after [`Engine::begin_query`]: only a `Start` verdict changes
/// anything, claiming the key's computation slot.
pub open spec fn begin_step(m: EngineModel, q: Query, now: u64) -> EngineModel {
    if begin_kind(m, q, now) is Start {
        EngineModel { jobs: m.jobs.insert(combination_key_of(q)), ..m }
    } else {
        m
    }
}

/// What [`Engine::begin_query`] hands back: the cached answer, the
/// instruction to await the pending computation for this key, or the
/// instruction to run the computation (fetch, search, finish).
pub enum QueryStep {
    Done(Vec<Listing>),
    Join,
    Start,
}

spec fn keys_unique(s: Seq<CacheKey>) -> bool {
    forall|i: int, j: int| 0 <= i < j < s.len() ==> s[i] != s[j]
}

proof fn lemma_to_set_push(s: Seq<CacheKey>, k: CacheKey)
    ensures
        s.push(k).to_set() == s.to_set().insert(k),
{
    assert forall|x: CacheKey| s.push(k).to_set().contains(x) implies s.to_set().insert(
        k,
    ).contains(x) by {
        let i = choose|i: int| 0 <= i < s.push(k).len() && s.push(k)[i] == x;
        if i < s.len() {
            assert(s[i] == x);
        }
    }
    assert forall|x: CacheKey| s.to_set().insert(k).contains(x) implies s.push(
        k,
    ).to_set().contains(x) by {
        if x == k {
            assert(s.push(k)[s.len() as int] == x);
        } else {
            let i = choose|i: int| 0 <= i < s.len() && s[i] == x;
            assert(s.push(k)[i] == x);
        }
    }
    assert(s.push(k).to_set() =~= s.to_set().insert(k));
}

proof fn lemma_to_set_remove(s: Seq<CacheKey>, i: int)
    requires
        keys_unique(s),
        0 <= i < s.len(),
    ensures
        s.remove(i).to_set() == s.to_set().remove(s[i]),
        keys_unique(s.remove(i)),
{
    let r = s.remove(i);
    assert(forall|j: int| 0 <= j < i ==> r[j] == s[j]);
    assert(forall|j: int| i <= j < r.len() ==> r[j] == s[j + 1]);
    assert forall|x: CacheKey| r.to_set().contains(x) implies s.to_set().remove(s[i]).contains(
        x,
    ) by {
        let j = choose|j: int| 0 <= j < r.len() && r[j] == x;
        if j < i {
            assert(s[j] == x);
        } else {
            assert(s[j + 1] == x);
        }
    }
    assert forall|x: CacheKey| s.to_set().remove(s[i]).contains(x) implies r.to_set().contains(
        x,
    ) by {
        let j = choose|j: int| 0 <= j < s.len() && s[j] == x;
        if j < i {
            assert(r[j] == x);
        } else {
            assert(j != i);
            assert(r[j - 1] == x);
        }
    }
    assert(r.to_set() =~= s.to_set().remove(s[i]));
}

/// The engine: both cache namespaces, the in-flight job set, and the
/// listings time-to-live the process was configured with.  Combination
/// answers always live [`RESULTS_TTL_SECS`].
pub struct Engine {
    listings_cache: TtlCache<Vec<Listing>>,
    results_cache: TtlCache<Vec<Listing>>,
    in_flight: Vec<CacheKey>,
    listings_ttl: u64,
}

impl Engine {
    /// Caches are coherent and no job key repeats.
    pub closed spec fn wf(&self) -> bool {
        &&& self.listings_cache.wf()
        &&& self.results_cache.wf()
        &&& keys_unique(self.in_flight@)
    }

    /// The abstract state.
    pub closed spec fn model(&self) -> EngineModel {
        EngineModel {
            listings: self.listings_cache@,
            results: self.results_cache@,
            jobs: self.in_flight@.to_set(),
        }
    }

    /// The configured raw-listings time-to-live (seconds).
    pub closed spec fn listings_ttl_spec(&self) -> u64 {
        self.listings_ttl
    }

    /// A fresh engine: empty caches, nothing in flight.
    pub fn new(listings_ttl: u64) -> (r: Engine)
        ensures
            r.wf(),
            r.model().listings == Map::<CacheKey, (Seq<Listing>, u64)>::empty(),
            r.model().results == Map::<CacheKey, (Seq<Listing>, u64)>::empty(),
            r.model().jobs == Set::<CacheKey>::empty(),
            r.listings_ttl_spec() == listings_ttl,
    {
        let e = Engine {
            listings_cache: TtlCache::new(),
            results_cache: TtlCache::new(),
            in_flight: Vec::new(),
            listings_ttl,
        };
        proof {
            assert(e.in_flight@.to_set() =~= Set::<CacheKey>::empty());
        }
        e
    }

    fn contains_job(&self, k: &CacheKey) -> (r: bool)
        ensures
            r == self.model().jobs.contains(*k),
    {
        let mut i: usize = 0;
        while i < self.in_flight.len()
            invariant
                i <= self.in_flight@.len(),
                forall|j: int| 0 <= j < i ==> self.in_flight@[j] != *k,
            decreases self.in_flight@.len() - i,
        {
            if self.in_flight[i] == *k {
                return true;
            }
            i = i + 1;
        }
        proof {
            assert(!self.in_flight@.contains(*k));
        }
        false
    }

    fn find_job(&self, k: &CacheKey) -> (r: Option<usize>)
        ensures
            match r {
                Some(i) => i < self.in_flight@.len() && self.in_flight@[i as int] == *k,
                None => !self.in_flight@.contains(*k),
            },
    {
        let mut i: usize = 0;
        while i < self.in_flight.len()
            invariant
                i <= self.in_flight@.len(),
                forall|j: int| 0 <= j < i ==> self.in_flight@[j] != *k,
            decreases self.in_flight@.len() - i,
        {
            if self.in_flight[i] == *k {
                return Some(i);
            }
            i = i + 1;
        }
        None
    }

    fn remove_job(&mut self, k: &CacheKey)
        requires
            old(self).wf(),
        ensures
            final(self).wf(),
            final(self).model() == (EngineModel {
                jobs: old(self).model().jobs.remove(*k),
                ..old(self).model()
            }),
            final(self).listings_ttl_spec() == old(self).listings_ttl_spec(),
    {
        match self.find_job(k) {
            Some(i) => {
                proof {
                    lemma_to_set_remove(self.in_flight@, i as int);
                }
                self.in_flight.remove(i);
                proof {
                    assert(self.model() =~= EngineModel {
                        jobs: old(self).model().jobs.remove(*k),
                        ..old(self).model()
                    });
                }
            },
            None => {
                proof {
                    assert(self.in_flight@.to_set() =~= self.in_flight@.to_set().remove(*k));
                    assert(self.model() =~= EngineModel {
                        jobs: old(self).model().jobs.remove(*k),
                        ..old(self).model()
                    });
                }
            },
        }
    }

    /// The first move of a query at instant `now`: a fresh cached answer
    /// is returned at once; otherwise the caller either joins the pending
    /// computation for this key or, when there is none, claims it (and is
    /// then obliged to finish or fail it).
    pub fn begin_query(&mut self, q: &Query, now: u64) -> (r: QueryStep)
        requires
            old(self).wf(),
        ensures
            final(self).wf(),
            final(self).model() == begin_step(old(self).model(), *q, now),
            final(self).listings_ttl_spec() == old(self).listings_ttl_spec(),
            match r {
                QueryStep::Done(v) => begin_kind(old(self).model(), *q, now) is Hit && v@ == old(
                    self,
                ).model().results[combination_key_of(*q)].0,
                QueryStep::Join => begin_kind(old(self).model(), *q, now) is Join,
                QueryStep::Start => begin_kind(old(self).model(), *q, now) is Start,
            },
    {
        let rk = q.combination_key();
        let hit = match self.results_cache.get(&rk, now) {
            Some(v) => Some(clone_listings(v)),
            None => None,
        };
        match hit {
            Some(v) => QueryStep::Done(v),
            None => {
                if self.contains_job(&rk) {
                    QueryStep::Join
                } else {
                    proof {
                        lemma_to_set_push(self.in_flight@, rk);
                    }
                    self.in_flight.push(rk);
                    proof {
                        assert(forall|j: int|
                            0 <= j < old(self).in_flight@.len() ==> old(self).in_flight@[j]
                                != rk) by {
                            assert(!old(self).in_flight@.contains(rk));
                        }
                        assert(self.model() =~= begin_step(old(self).model(), *q, now));
                    }
                    QueryStep::Start
                }
            },
        }
    }

    /// The raw listings cached for this query's item and location, when
    /// still fresh at `now`.
    pub fn cached_listings(&self, q: &Query, now: u64) -> (r: Option<Vec<Listing>>)
        requires
            self.wf(),
        ensures
            match r {
                Some(v) => fresh_at(self.model().listings, listings_key_of(*q), now) && v@
                    == self.model().listings[listings_key_of(*q)].0,
                None => !fresh_at(self.model().listings, listings_key_of(*q), now),
            },
    {
        let lk = q.listings_key();
        match self.listings_cache.get(&lk, now) {
            Some(v) => Some(clone_listings(v)),
            None => None,
        }
    }

    /// Stores freshly fetched raw listings under the query's item and
    /// location for the configured listings time-to-live.
    pub fn store_listings(&mut self, q: &Query, listings: &Vec<Listing>, now: u64)
        requires
            old(self).wf(),
            now + old(self).listings_ttl_spec() <= u64::MAX,
        ensures
            final(self).wf(),
            final(self).model() == (EngineModel {
                listings: set_spec(
                    old(self).model().listings,
                    listings_key_of(*q),
                    listings@,
                    now,
                    old(self).listings_ttl_spec(),
                ),
                ..old(self).model()
            }),
            final(self).listings_ttl_spec() == old(self).listings_ttl_spec(),
    {
        let lk = q.listings_key();
        let copy = clone_listings(listings);
        let ttl = self.listings_ttl;
        self.listings_cache.set(lk, copy, now, ttl);
        proof {
            assert(self.model() =~= EngineModel {
                listings: set_spec(
                    old(self).model().listings,
                    listings_key_of(*q),
                    listings@,
                    now,
                    old(self).listings_ttl_spec(),
                ),
                ..old(self).model()
            });
        }
    }

    /// Stores a computed answer at instant `now` and releases the key's
    /// computation slot.  The answer lands under the query's key and, when
    /// the quality fallback produced it, under the unrestricted key too
    /// (both writes keep the store's earlier-writer-wins rule).  Pairing
    /// this with [`compute_answer`] keeps the search itself outside
    /// whatever lock guards the engine, so one slow computation never
    /// serializes queries for unrelated keys.
    pub fn store_answer(&mut self, q: &Query, answer: ComputedAnswer, now: u64) -> (r: Vec<
        Listing,
    >)
        requires
            old(self).wf(),
            now + RESULTS_TTL_SECS <= u64::MAX,
        ensures
            final(self).wf(),
            final(self).listings_ttl_spec() == old(self).listings_ttl_spec(),
            final(self).model().listings == old(self).model().listings,
            final(self).model().jobs == old(self).model().jobs.remove(combination_key_of(*q)),
            r == answer.chosen,
            !answer.shared_with_unrestricted ==> final(self).model().results == set_spec(
                old(self).model().results,
                combination_key_of(*q),
                answer.chosen@,
                now,
                RESULTS_TTL_SECS,
            ),
            answer.shared_with_unrestricted ==> final(self).model().results == set_spec(
                set_spec(
                    old(self).model().results,
                    combination_key_of(*q),
                    answer.chosen@,
                    now,
                    RESULTS_TTL_SECS,
                ),
                combination_key_of(without_hq(*q)),
                answer.chosen@,
                now,
                RESULTS_TTL_SECS,
            ),
    {
        let rk = q.combination_key();
        let copy = clone_listings(&answer.chosen);
        self.results_cache.set(rk, copy, now, RESULTS_TTL_SECS);
        if answer.shared_with_unrestricted {
            let nqk = q.to_any_quality().combination_key();
            let copy2 = clone_listings(&answer.chosen);
            self.results_cache.set(nqk, copy2, now, RESULTS_TTL_SECS);
        }
        self.remove_job(&rk);
        answer.chosen
    }

    /// Runs a claimed computation to completion at instant `now`:
    /// [`compute_answer`] then [`Engine::store_answer`] in one call, for
    /// callers that do not need to keep the search outside a lock.
    ///
    /// With the quality restriction the search first runs over the
    /// high-quality listings alone; when nothing there is feasible it
    /// falls back to the unrestricted set and writes that answer under
    /// both the restricted and the unrestricted key, since the
    /// unrestricted answer is by definition also correct for the
    /// unrestricted query.  The last clause pins the fallback down: when
    /// no high-quality combination at all reaches the amount, the
    /// unrestricted answer is returned and shared.  An infeasible query
    /// yields the empty answer; it is cached like any other.
    pub fn finish_job(&mut self, q: &Query, listings: &Vec<Listing>, now: u64) -> (r: Vec<Listing>)
        requires
            old(self).wf(),
            now + RESULTS_TTL_SECS <= u64::MAX,
        ensures
            final(self).wf(),
            final(self).listings_ttl_spec() == old(self).listings_ttl_spec(),
            final(self).model().listings == old(self).model().listings,
            final(self).model().jobs == old(self).model().jobs.remove(combination_key_of(*q)),
            !q.want_hq ==> ({
                &&& exists|m: int| #[trigger] search_run(listings@, q.amount, r@, m)
                &&& final(self).model().results == set_spec(
                    old(self).model().results,
                    combination_key_of(*q),
                    r@,
                    now,
                    RESULTS_TTL_SECS,
                )
            }),
            q.want_hq ==> ({
                ||| ({
                    &&& r@.len() > 0
                    &&& exists|m: int| #[trigger] search_run(hq_only(listings@), q.amount, r@, m)
                    &&& final(self).model().results == set_spec(
                        old(self).model().results,
                        combination_key_of(*q),
                        r@,
                        now,
                        RESULTS_TTL_SECS,
                    )
                })
                ||| ({
                    &&& exists|m: int|
                        #[trigger] search_run(
                            hq_only(listings@),
                            q.amount,
                            Seq::<Listing>::empty(),
                            m,
                        )
                    &&& exists|m: int| #[trigger] search_run(listings@, q.amount, r@, m)
                    &&& final(self).model().results == set_spec(
                        set_spec(
                            old(self).model().results,
                            combination_key_of(*q),
                            r@,
                            now,
                            RESULTS_TTL_SECS,
                        ),
                        combination_key_of(without_hq(*q)),
                        r@,
                        now,
                        RESULTS_TTL_SECS,
                    )
                })
            }),
            q.want_hq && no_feasible(hq_only(listings@), q.amount) ==> ({
                &&& exists|m: int| #[trigger] search_run(listings@, q.amount, r@, m)
                &&& final(self).model().results == set_spec(
                    set_spec(
                        old(self).model().results,
                        combination_key_of(*q),
                        r@,
                        now,
                        RESULTS_TTL_SECS,
                    ),
                    combination_key_of(without_hq(*q)),
                    r@,
                    now,
                    RESULTS_TTL_SECS,
                )
            }),
    {
        let answer = compute_answer(listings, q.amount, q.want_hq);
        let ghost a_chosen = answer.chosen@;
        let ghost a_shared = answer.shared_with_unrestricted;
        let r = self.store_answer(q, answer, now);
        proof {
            assert(r@ == a_chosen);
        }
        r
    }

    /// Releases a claimed computation slot without storing anything: the
    /// fetch failed, the failure is surfaced to every waiter by the
    /// embedding program, and a later identical query may retry.
    pub fn fail_job(&mut self, q: &Query)
        requires
            old(self).wf(),
        ensures
            final(self).wf(),
            final(self).model() == (EngineModel {
                jobs: old(self).model().jobs.remove(combination_key_of(*q)),
                ..old(self).model()
            }),
            final(self).listings_ttl_spec() == old(self).listings_ttl_spec(),
    {
        let rk = q.combination_key();
        self.remove_job(&rk);
    }
}

/// A computed combination answer, ready to be stored: the chosen
/// listings, and whether the answer must also serve the unrestricted key
/// because the quality fallback produced it.
pub struct ComputedAnswer {
    pub chosen: Vec<Listing>,
    pub shared_with_unrestricted: bool,
}

/// The search with the quality fallback, free of any engine state.  The
/// embedding program runs this outside every lock and stores the outcome
/// with [`Engine::store_answer`].
///
/// With the quality restriction the search first runs over the
/// high-quality listings alone; only when nothing there is feasible does
/// it fall back to the unrestricted set and mark the answer as shared.
/// In particular, when no high-quality combination of any size reaches
/// the amount, the fallback is forced.
pub fn compute_answer(listings: &Vec<Listing>, amount: u64, want_hq: bool) -> (r: ComputedAnswer)
    ensures
        !want_hq ==> !r.shared_with_unrestricted && (exists|m: int|
            #[trigger] search_run(listings@, amount, r.chosen@, m)),
        want_hq && !r.shared_with_unrestricted ==> r.chosen@.len() > 0 && (exists|m: int|
            #[trigger] search_run(hq_only(listings@), amount, r.chosen@, m)),
        want_hq && r.shared_with_unrestricted ==> (exists|m: int|
            #[trigger] search_run(hq_only(listings@), amount, Seq::<Listing>::empty(), m)) && (
        exists|m: int| #[trigger] search_run(listings@, amount, r.chosen@, m)),
        want_hq && no_feasible(hq_only(listings@), amount) ==> r.shared_with_unrestricted,
{
    if want_hq {
        let hqs = filter_hq(listings);
        let out = find_cheapest_combination(&hqs, amount);
        let ghost m0 = out.explored_max_size as int;
        if out.chosen.len() > 0 {
            let ghost chosen0 = out.chosen@;
            proof {
                assert(search_run(hq_only(listings@), amount, chosen0, m0));
                // a feasible choice was found, so the pool cannot be
                // infeasible at every size
                if no_feasible(hq_only(listings@), amount) {
                    let idxs = choose|idxs: Seq<int>|
                        is_combo(idxs, 0, hq_only(listings@).len() as int) && 1 <= idxs.len()
                            <= m0 && #[trigger] select(hq_only(listings@), idxs) == chosen0
                            && qty_of(chosen0) >= amount;
                    assert(qty_of(select(hq_only(listings@), idxs)) < amount);
                    assert(false);
                }
            }
            let result = ComputedAnswer { chosen: out.chosen, shared_with_unrestricted: false };
            proof {
                assert(result.chosen@ == chosen0);
                assert(exists|m: int|
                    #[trigger] search_run(hq_only(listings@), amount, result.chosen@, m)) by {
                    assert(search_run(hq_only(listings@), amount, result.chosen@, m0));
                }
            }
            result
        } else {
            let out2 = find_cheapest_combination(listings, amount);
            let ghost m2 = out2.explored_max_size as int;
            let ghost chosen2 = out2.chosen@;
            proof {
                assert(out.chosen@ =~= Seq::<Listing>::empty());
                assert(search_run(hq_only(listings@), amount, Seq::<Listing>::empty(), m0));
            }
            let result = ComputedAnswer { chosen: out2.chosen, shared_with_unrestricted: true };
            proof {
                assert(result.chosen@ == chosen2);
                assert(exists|m: int|
                    #[trigger] search_run(hq_only(listings@), amount, Seq::<Listing>::empty(), m))
                    by {
                    assert(search_run(hq_only(listings@), amount, Seq::<Listing>::empty(), m0));
                }
                assert(exists|m: int|
                    #[trigger] search_run(listings@, amount, result.chosen@, m)) by {
                    assert(search_run(listings@, amount, result.chosen@, m2));
                }
            }
            result
        }
    } else {
        let out = find_cheapest_combination(listings, amount);
        let ghost m0 = out.explored_max_size as int;
        let ghost chosen0 = out.chosen@;
        let result = ComputedAnswer { chosen: out.chosen, shared_with_unrestricted: false };
        proof {
            assert(result.chosen@ == chosen0);
            assert(exists|m: int| #[trigger] search_run(listings@, amount, result.chosen@, m))
                by {
                assert(search_run(listings@, amount, result.chosen@, m0));
            }
        }
        result
    }
}

/// Expiry of stored raw listings: listings stored at `now` (over a key
/// that was not fresh) answer every read up to and including `now + ttl`
/// with the stored value and none after it, so the embedding loop, which
/// reads first and fetches only on a miss, refetches exactly once the
/// entry has expired.
pub proof fn lemma_listings_ttl_expiry(
    m: EngineModel,
    q: Query,
    v: Seq<Listing>,
    now: u64,
    ttl: u64,
    later: u64,
)
    requires
        !fresh_at(m.listings, listings_key_of(q), now),
        now + ttl <= u64::MAX,
    ensures
        ({
            let m2 = set_spec(m.listings, listings_key_of(q), v, now, ttl);
            &&& later <= now + ttl ==> fresh_at(m2, listings_key_of(q), later) && m2[listings_key_of(
                q,
            )].0 == v
            &&& later > now + ttl ==> !fresh_at(m2, listings_key_of(q), later)
        }),
{
    crate::cache::lemma_ttl_expiry(m.listings, listings_key_of(q), v, now, ttl, later);
}

/// Coalescing, single flight: a query that was told to start a
/// computation leaves the key's slot claimed, so an identical query
/// arriving at the same or any later instant (while the slot is still
/// claimed and nothing has been cached) joins that computation instead of
/// starting a second one.
pub proof fn lemma_coalescing_single_flight(m: EngineModel, q: Query, now1: u64, now2: u64)
    requires
        begin_kind(m, q, now1) is Start,
        now1 <= now2,
    ensures
        begin_kind(begin_step(m, q, now1), q, now2) is Join,
{
}

/// A cache hit avoids recomputation: while a stored answer for the key is
/// unexpired, an identical query is answered from the cache and the state
/// does not change, so no fetch and no search happen.
pub proof fn lemma_cache_hit_avoids_recomputation(m: EngineModel, q: Query, now: u64)
    requires
        fresh_at(m.results, combination_key_of(q), now),
    ensures
        begin_kind(m, q, now) is Hit,
        begin_step(m, q, now) == m,
{
}

/// Expiry of a stored answer: a value stored at `now` answers every
/// identical query up to `now + RESULTS_TTL_SECS` with that very value;
/// queried after that instant the entry is a miss again, and with no
/// computation pending a new one starts.
pub proof fn lemma_ttl_expiry_recomputes(
    m: EngineModel,
    q: Query,
    v: Seq<Listing>,
    now: u64,
    later: u64,
)
    requires
        !fresh_at(m.results, combination_key_of(q), now),
        now + RESULTS_TTL_SECS <= u64::MAX,
    ensures
        ({
            let m2 = EngineModel {
                results: set_spec(m.results, combination_key_of(q), v, now, RESULTS_TTL_SECS),
                ..m
            };
            &&& later <= now + RESULTS_TTL_SECS ==> begin_kind(m2, q, later) is Hit
                && m2.results[combination_key_of(q)].0 == v
            &&& later > now + RESULTS_TTL_SECS && !m.jobs.contains(combination_key_of(q))
                ==> begin_kind(m2, q, later) is Start
        }),
{
    crate::cache::lemma_ttl_expiry(m.results, combination_key_of(q), v, now, RESULTS_TTL_SECS, later);
}

/// Quality fallback shares its answer: when the fallback writes one
/// answer under both the restricted and the unrestricted key (both
/// having missed), a later query for either key within the time-to-live
/// is served from the cache with that same value -- in particular an
/// unrestricted query after a restricted one recomputes nothing.
pub proof fn lemma_hq_fallback_shares_result(
    m: EngineModel,
    q: Query,
    v: Seq<Listing>,
    now: u64,
    later: u64,
)
    requires
        q.want_hq,
        !fresh_at(m.results, combination_key_of(q), now),
        !fresh_at(m.results, combination_key_of(without_hq(q)), now),
        now + RESULTS_TTL_SECS <= u64::MAX,
        later <= now + RESULTS_TTL_SECS,
    ensures
        ({
            let m2 = EngineModel {
                results: set_spec(
                    set_spec(m.results, combination_key_of(q), v, now, RESULTS_TTL_SECS),
                    combination_key_of(without_hq(q)),
                    v,
                    now,
                    RESULTS_TTL_SECS,
                ),
                ..m
            };
            &&& begin_kind(m2, without_hq(q), later) is Hit
            &&& m2.results[combination_key_of(without_hq(q))].0 == v
            &&& begin_kind(m2, q, later) is Hit
            &&& m2.results[combination_key_of(q)].0 == v
        }),
{
    let hqk = combination_key_of(q);
    let nqk = combination_key_of(without_hq(q));
    assert(hqk != nqk);
    let m1 = set_spec(m.results, hqk, v, now, RESULTS_TTL_SECS);
    assert(!fresh_at(m1, nqk, now));
}

} // verus!

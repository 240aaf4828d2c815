//! The optimizer: the minimum-cost subset of listings whose summed
//! quantity reaches a target.
//!
//! Subsets ("combinations") are enumerated by size through an explicit
//! index-based recursion rather than a library combination iterator, so the
//! whole enumeration is ordinary verified code.  Two prunings bound the
//! work: sizes whose enumeration space would exceed [`SEARCH_SPACE_BOUND`]
//! are never opened, and once a feasible subset of size `k` is known, no
//! size beyond `k + 1` is explored.  Both trade completeness for time; the
//! contract of [`find_cheapest_combination`] states the answer relative to
//! the sizes actually explored.

use vstd::arithmetic::mul::lemma_mul_inequality;
use vstd::arithmetic::power::{lemma_pow_adds, lemma_pow_positive, pow};
use vstd::prelude::*;

use crate::listing::Listing;

verus! {

/// No subset size whose enumeration space (listing count to the power of
/// the size) exceeds this is explored.
pub const SEARCH_SPACE_BOUND: u64 = 100000000;

/// Summed quantity of a sequence of listings.
pub open spec fn qty_of(s: Seq<Listing>) -> int
    decreases s.len(),
{
    if s.len() == 0 {
        0
    } else {
        qty_of(s.drop_last()) + s.last().quantity
    }
}

/// Summed total price of a sequence of listings.
pub open spec fn cost_of(s: Seq<Listing>) -> int
    decreases s.len(),
{
    if s.len() == 0 {
        0
    } else {
        cost_of(s.drop_last()) + s.last().total_price
    }
}

/// A combination: strictly increasing listing indices drawn from
/// `[lo, hi)`.  Strict increase makes it a subset without replacement.
pub open spec fn is_combo(idxs: Seq<int>, lo: int, hi: int) -> bool {
    &&& forall|j: int| 0 <= j < idxs.len() ==> lo <= #[trigger] idxs[j] < hi
    &&& forall|j1: int, j2: int|
        0 <= j1 < j2 < idxs.len() ==> #[trigger] idxs[j1] < #[trigger] idxs[j2]
}

/// The listings a combination picks, in index order.
pub open spec fn select(s: Seq<Listing>, idxs: Seq<int>) -> Seq<Listing> {
    idxs.map_values(|i: int| s[i])
}

pub proof fn lemma_sums_nonneg(s: Seq<Listing>)
    ensures
        qty_of(s) >= 0,
        cost_of(s) >= 0,
    decreases s.len(),
{
    if s.len() > 0 {
        lemma_sums_nonneg(s.drop_last());
    }
}

pub proof fn lemma_sums_add(a: Seq<Listing>, b: Seq<Listing>)
    ensures
        qty_of(a + b) == qty_of(a) + qty_of(b),
        cost_of(a + b) == cost_of(a) + cost_of(b),
    decreases b.len(),
{
    if b.len() == 0 {
        assert(a + b =~= a);
    } else {
        lemma_sums_add(a, b.drop_last());
        assert((a + b).drop_last() =~= a + b.drop_last());
        assert((a + b).last() == b.last());
    }
}

/// Every per-listing total fits in a machine word, so a sum of `len`
/// totals is at most `len` words.
pub proof fn lemma_sums_bounded(s: Seq<Listing>)
    ensures
        qty_of(s) <= s.len() * 0xffff_ffff_ffff_ffff,
        cost_of(s) <= s.len() * 0xffff_ffff_ffff_ffff,
    decreases s.len(),
{
    if s.len() > 0 {
        lemma_sums_bounded(s.drop_last());
    }
}

/// Strictly increasing indices inside `[lo, hi)` cannot number more than
/// the interval's width.
proof fn lemma_combo_len_bound(idxs: Seq<int>, lo: int, hi: int)
    requires
        is_combo(idxs, lo, hi),
        lo <= hi,
    ensures
        idxs.len() <= hi - lo,
    decreases idxs.len(),
{
    if idxs.len() > 0 {
        let t = idxs.drop_first();
        assert(forall|j: int| 0 <= j < t.len() ==> t[j] == idxs[j + 1]);
        assert(is_combo(t, idxs[0] + 1, hi));
        lemma_combo_len_bound(t, idxs[0] + 1, hi);
    }
}

/// Prepending the index `lo` to a combination over `[lo + 1, hi)` gives a
/// combination over `[lo, hi)` whose selection and sums extend by `s[lo]`.
proof fn lemma_select_cons(s: Seq<Listing>, lo: int, t: Seq<int>)
    requires
        0 <= lo < s.len(),
        is_combo(t, lo + 1, s.len() as int),
    ensures
        is_combo(seq![lo] + t, lo, s.len() as int),
        (seq![lo] + t).len() == t.len() + 1,
        select(s, seq![lo] + t) =~= seq![s[lo]] + select(s, t),
        qty_of(select(s, seq![lo] + t)) == s[lo].quantity + qty_of(select(s, t)),
        cost_of(select(s, seq![lo] + t)) == s[lo].total_price + cost_of(select(s, t)),
{
    let idxs = seq![lo] + t;
    assert(idxs[0] == lo);
    assert(forall|j: int| 0 <= j < t.len() ==> idxs[j + 1] == t[j]);
    assert(forall|j: int| 0 <= j < idxs.len() ==> lo <= #[trigger] idxs[j] < s.len() as int);
    assert(forall|j1: int, j2: int|
        0 <= j1 < j2 < idxs.len() ==> #[trigger] idxs[j1] < #[trigger] idxs[j2]);
    assert(select(s, idxs) =~= seq![s[lo]] + select(s, t));
    lemma_sums_add(seq![s[lo]], select(s, t));
    assert(qty_of(seq![s[lo]]) == s[lo].quantity) by {
        assert(seq![s[lo]].drop_last() =~= Seq::<Listing>::empty());
        assert(qty_of(Seq::<Listing>::empty()) == 0);
        assert(seq![s[lo]].last() == s[lo]);
    }
    assert(cost_of(seq![s[lo]]) == s[lo].total_price) by {
        assert(seq![s[lo]].drop_last() =~= Seq::<Listing>::empty());
        assert(cost_of(Seq::<Listing>::empty()) == 0);
        assert(seq![s[lo]].last() == s[lo]);
    }
}

/// A nonempty combination over `[lo, hi)` either starts at `lo`, splitting
/// into `lo` plus a combination over `[lo + 1, hi)`, or avoids `lo`
/// entirely and already is a combination over `[lo + 1, hi)`.
proof fn lemma_combo_split(s: Seq<Listing>, lo: int, idxs: Seq<int>)
    requires
        0 <= lo,
        is_combo(idxs, lo, s.len() as int),
        idxs.len() > 0,
    ensures
        idxs[0] == lo ==> {
            let t = idxs.drop_first();
            &&& is_combo(t, lo + 1, s.len() as int)
            &&& t.len() == idxs.len() - 1
            &&& select(s, idxs) =~= seq![s[lo]] + select(s, t)
            &&& qty_of(select(s, idxs)) == s[lo].quantity + qty_of(select(s, t))
            &&& cost_of(select(s, idxs)) == s[lo].total_price + cost_of(select(s, t))
        },
        idxs[0] != lo ==> is_combo(idxs, lo + 1, s.len() as int),
{
    if idxs[0] == lo {
        let t = idxs.drop_first();
        assert(forall|j: int| 0 <= j < t.len() ==> t[j] == idxs[j + 1]);
        assert(is_combo(t, lo + 1, s.len() as int));
        lemma_select_cons(s, lo, t);
        assert(idxs =~= seq![lo] + t);
    } else {
        assert(forall|j: int| 0 < j < idxs.len() ==> idxs[0] < #[trigger] idxs[j]);
        assert(forall|j: int| 0 <= j < idxs.len() ==> lo + 1 <= #[trigger] idxs[j]);
    }
}

/// The minimum-cost combination of exactly `k` listings with indices at
/// least `start` whose summed quantity reaches `needed`: its cost, and the
/// listings it picks.  `None` exactly when no combination of that size and
/// range reaches `needed`.  On a cost tie the combination that is earliest
/// in index order wins.
#[verifier::rlimit(100)]
fn best_exact(s: &Vec<Listing>, start: usize, k: usize, needed: u64) -> (r: Option<
    (u128, Vec<Listing>),
>)
    requires
        start <= s@.len(),
    ensures
        match r {
            Some((c, combo)) => {
                &&& combo@.len() == k
                &&& exists|idxs: Seq<int>|
                    is_combo(idxs, start as int, s@.len() as int) && idxs.len() == k
                        && #[trigger] select(s@, idxs) == combo@
                &&& qty_of(combo@) >= needed
                &&& c == cost_of(combo@)
                &&& forall|idxs: Seq<int>|
                    is_combo(idxs, start as int, s@.len() as int) && idxs.len() == k && qty_of(
                        #[trigger] select(s@, idxs),
                    ) >= needed ==> c <= cost_of(select(s@, idxs))
            },
            None => forall|idxs: Seq<int>|
                is_combo(idxs, start as int, s@.len() as int) && idxs.len() == k ==> qty_of(
                    #[trigger] select(s@, idxs),
                ) < needed,
        },
    decreases s@.len() - start,
{
    let ghost n = s@.len() as int;
    let ghost st = start as int;
    if k == 0 {
        if needed == 0 {
            let empty: Vec<Listing> = Vec::new();
            proof {
                let idxs = Seq::<int>::empty();
                assert(is_combo(idxs, st, n));
                assert(select(s@, idxs) =~= Seq::<Listing>::empty());
                assert(select(s@, idxs) == empty@) by {
                    assert(empty@ =~= Seq::<Listing>::empty());
                }
                assert forall|idxs2: Seq<int>|
                    is_combo(idxs2, st, n) && idxs2.len() == 0 && qty_of(
                        #[trigger] select(s@, idxs2),
                    ) >= needed implies 0 <= cost_of(select(s@, idxs2)) by {
                    lemma_sums_nonneg(select(s@, idxs2));
                }
            }
            Some((0, empty))
        } else {
            proof {
                assert forall|idxs: Seq<int>|
                    is_combo(idxs, st, n) && idxs.len() == 0 implies qty_of(
                    #[trigger] select(s@, idxs),
                ) < needed by {
                    assert(select(s@, idxs) =~= Seq::<Listing>::empty());
                }
            }
            None
        }
    } else if s.len() - start < k {
        proof {
            assert forall|idxs: Seq<int>|
                is_combo(idxs, st, n) && idxs.len() == k implies qty_of(
                #[trigger] select(s@, idxs),
            ) < needed by {
                lemma_combo_len_bound(idxs, st, n);
            }
        }
        None
    } else {
        let l0 = &s[start];
        let q0 = l0.quantity;
        let c0 = l0.total_price;
        let tail_needed = if q0 >= needed {
            0
        } else {
            needed - q0
        };
        let incl = best_exact(s, start + 1, k - 1, tail_needed);
        let excl = best_exact(s, start + 1, k, needed);
        match (incl, excl) {
            (None, None) => {
                proof {
                    assert forall|idxs: Seq<int>|
                        is_combo(idxs, st, n) && idxs.len() == k implies qty_of(
                        #[trigger] select(s@, idxs),
                    ) < needed by {
                        lemma_combo_split(s@, st, idxs);
                        if idxs[0] == st {
                            let t = idxs.drop_first();
                            assert(qty_of(select(s@, t)) < tail_needed);
                            lemma_sums_nonneg(select(s@, t));
                        }
                    }
                }
                None
            },
            (Some((ci, combi)), None) => {
                proof {
                    lemma_sums_bounded(combi@);
                }
                let c = ci + (c0 as u128);
                let mut combo = combi;
                combo.insert(0, l0.clone());
                proof {
                    let t = choose|t: Seq<int>|
                        is_combo(t, st + 1, n) && t.len() == (k - 1) as int && #[trigger] select(
                            s@,
                            t,
                        ) == combi@;
                    lemma_select_cons(s@, st, t);
                    assert(combo@ =~= seq![s@[st]] + combi@);
                    assert(select(s@, seq![st] + t) == combo@);
                    lemma_sums_nonneg(combi@);
                    assert forall|idxs: Seq<int>|
                        is_combo(idxs, st, n) && idxs.len() == k && qty_of(
                            #[trigger] select(s@, idxs),
                        ) >= needed implies c <= cost_of(select(s@, idxs)) by {
                        lemma_combo_split(s@, st, idxs);
                        if idxs[0] == st {
                            let t2 = idxs.drop_first();
                            lemma_sums_nonneg(select(s@, t2));
                            assert(qty_of(select(s@, t2)) >= tail_needed);
                            assert(ci <= cost_of(select(s@, t2)));
                        } else {
                            assert(qty_of(select(s@, idxs)) < needed);
                        }
                    }
                }
                Some((c, combo))
            },
            (None, Some((ce, combe))) => {
                proof {
                    let t = choose|t: Seq<int>|
                        is_combo(t, st + 1, n) && t.len() == k && #[trigger] select(s@, t)
                            == combe@;
                    assert(is_combo(t, st, n));
                    assert forall|idxs: Seq<int>|
                        is_combo(idxs, st, n) && idxs.len() == k && qty_of(
                            #[trigger] select(s@, idxs),
                        ) >= needed implies ce <= cost_of(select(s@, idxs)) by {
                        lemma_combo_split(s@, st, idxs);
                        if idxs[0] == st {
                            let t2 = idxs.drop_first();
                            lemma_sums_nonneg(select(s@, t2));
                            assert(qty_of(select(s@, t2)) >= tail_needed);
                            assert(false);
                        }
                    }
                }
                Some((ce, combe))
            },
            (Some((ci, combi)), Some((ce, combe))) => {
                proof {
                    lemma_sums_bounded(combi@);
                }
                let cin = ci + (c0 as u128);
                if cin <= ce {
                    let mut combo = combi;
                    combo.insert(0, l0.clone());
                    proof {
                        let t = choose|t: Seq<int>|
                            is_combo(t, st + 1, n) && t.len() == (k - 1) as int
                                && #[trigger] select(s@, t) == combi@;
                        lemma_select_cons(s@, st, t);
                        assert(combo@ =~= seq![s@[st]] + combi@);
                        assert(select(s@, seq![st] + t) == combo@);
                        lemma_sums_nonneg(combi@);
                        assert forall|idxs: Seq<int>|
                            is_combo(idxs, st, n) && idxs.len() == k && qty_of(
                                #[trigger] select(s@, idxs),
                            ) >= needed implies cin <= cost_of(select(s@, idxs)) by {
                            lemma_combo_split(s@, st, idxs);
                            if idxs[0] == st {
                                let t2 = idxs.drop_first();
                                lemma_sums_nonneg(select(s@, t2));
                                assert(qty_of(select(s@, t2)) >= tail_needed);
                                assert(ci <= cost_of(select(s@, t2)));
                            } else {
                                assert(ce <= cost_of(select(s@, idxs)));
                            }
                        }
                    }
                    Some((cin, combo))
                } else {
                    proof {
                        let t = choose|t: Seq<int>|
                            is_combo(t, st + 1, n) && t.len() == k && #[trigger] select(s@, t)
                                == combe@;
                        assert(is_combo(t, st, n));
                        assert forall|idxs: Seq<int>|
                            is_combo(idxs, st, n) && idxs.len() == k && qty_of(
                                #[trigger] select(s@, idxs),
                            ) >= needed implies ce <= cost_of(select(s@, idxs)) by {
                            lemma_combo_split(s@, st, idxs);
                            if idxs[0] == st {
                                let t2 = idxs.drop_first();
                                lemma_sums_nonneg(select(s@, t2));
                                assert(qty_of(select(s@, t2)) >= tail_needed);
                                assert(ci <= cost_of(select(s@, t2)));
                                assert(cost_of(select(s@, idxs)) == c0 + cost_of(select(s@, t2)));
                            }
                        }
                    }
                    Some((ce, combe))
                }
            },
        }
    }
}

/// No combination of size 1 up to `m` reaches `amount`.
pub open spec fn no_feasible_upto(s: Seq<Listing>, amount: u64, m: int) -> bool {
    forall|idxs: Seq<int>|
        is_combo(idxs, 0, s.len() as int) && 1 <= idxs.len() <= m ==> qty_of(
            #[trigger] select(s, idxs),
        ) < amount
}

/// `chosen` costs no more than any combination of size 1 up to `m` that
/// reaches `amount`.
pub open spec fn min_cost_upto(s: Seq<Listing>, amount: u64, m: int, chosen: Seq<Listing>) -> bool {
    forall|idxs: Seq<int>|
        is_combo(idxs, 0, s.len() as int) && 1 <= idxs.len() <= m && qty_of(
            #[trigger] select(s, idxs),
        ) >= amount ==> cost_of(chosen) <= cost_of(select(s, idxs))
}

/// `chosen` is the selection of some combination of size 1 up to `m` and
/// reaches `amount`.
pub open spec fn is_chosen_combo(
    s: Seq<Listing>,
    amount: u64,
    m: int,
    chosen: Seq<Listing>,
) -> bool {
    exists|idxs: Seq<int>|
        is_combo(idxs, 0, s.len() as int) && 1 <= idxs.len() <= m && #[trigger] select(s, idxs)
            == chosen && qty_of(chosen) >= amount
}

/// No combination of any size reaches `amount`.
pub open spec fn no_feasible(pool: Seq<Listing>, amount: u64) -> bool {
    forall|idxs: Seq<int>|
        is_combo(idxs, 0, pool.len() as int) && idxs.len() >= 1 ==> qty_of(
            #[trigger] select(pool, idxs),
        ) < amount
}

/// Everything one complete search run guarantees, with `chosen` the
/// answer and `m` the largest subset size explored.  The final clause
/// ties `m` to the search's own stopping conditions -- the run used up
/// the sizes, hit the enumeration-space bound, or stopped one past a
/// feasible answer -- so no outcome can claim an arbitrarily small
/// exploration and thereby promise nothing.
pub open spec fn search_run(pool: Seq<Listing>, amount: u64, chosen: Seq<Listing>, m: int) -> bool {
    &&& 0 <= m
    &&& m == 0 || m + 1 <= pool.len()
    &&& amount == 0 ==> chosen.len() == 0 && m == 0
    &&& chosen.len() == 0 ==> no_feasible_upto(pool, amount, m)
    &&& chosen.len() > 0 ==> is_chosen_combo(pool, amount, m, chosen) && min_cost_upto(
        pool,
        amount,
        m,
        chosen,
    )
    &&& m >= 1 ==> pow(pool.len() as int, m as nat) <= SEARCH_SPACE_BOUND as int
    &&& amount > 0 && pool.len() >= 2 ==> ({
        ||| m == pool.len() - 1
        ||| pow(pool.len() as int, (m + 1) as nat) > SEARCH_SPACE_BOUND as int
        ||| (chosen.len() > 0 && m >= chosen.len() + 1)
    })
}

/// Whether `n` to the power `e` exceeds [`SEARCH_SPACE_BOUND`], computed
/// without ever forming the full power.
fn pow_exceeds(n: usize, e: usize) -> (r: bool)
    requires
        n >= 1,
        e >= 1,
    ensures
        r == (pow(n as int, e as nat) > SEARCH_SPACE_BOUND as int),
{
    let mut acc: u128 = 1;
    let mut j: usize = 0;
    proof {
        vstd::arithmetic::power::lemma_pow0(n as int);
    }
    while j < e
        invariant
            j <= e,
            n >= 1,
            acc == pow(n as int, j as nat),
            acc <= SEARCH_SPACE_BOUND as u128,
        decreases e - j,
    {
        proof {
            assert(acc * (n as u128) <= SEARCH_SPACE_BOUND as u128 * 0xffff_ffff_ffff_ffffu128)
                by (nonlinear_arith)
                requires
                    acc <= SEARCH_SPACE_BOUND as u128,
                    n as u128 <= 0xffff_ffff_ffff_ffffu128,
                    acc >= 0,
            ;
        }
        let next = acc * (n as u128);
        proof {
            lemma_pow_adds(n as int, j as nat, 1);
            vstd::arithmetic::power::lemma_pow1(n as int);
        }
        assert(next == pow(n as int, (j + 1) as nat));
        if next > (SEARCH_SPACE_BOUND as u128) {
            proof {
                lemma_pow_adds(n as int, (j + 1) as nat, (e - j - 1) as nat);
                lemma_pow_positive(n as int, (e - j - 1) as nat);
                lemma_mul_inequality(1, pow(n as int, (e - j - 1) as nat), pow(
                    n as int,
                    (j + 1) as nat,
                ));
                assert(pow(n as int, (j + 1) as nat) * 1 == pow(n as int, (j + 1) as nat));
            }
            return true;
        }
        acc = next;
        j = j + 1;
    }
    false
}

/// The outcome of one search run: the chosen listings (empty when nothing
/// feasible was found among the explored sizes) and the largest subset
/// size the search actually explored.
pub struct SearchOutcome {
    pub chosen: Vec<Listing>,
    pub explored_max_size: usize,
}

/// The search proper.  Explores subset sizes `1, 2, ...` up to at most one
/// less than the number of listings, each size exhaustively; stops before
/// a size whose enumeration space would exceed [`SEARCH_SPACE_BOUND`], and
/// before any size more than one larger than the best feasible subset
/// found so far.  Returns the minimum-cost feasible combination among all
/// explored sizes, or the empty result when none is feasible there.  A
/// target of zero is answered with the empty result without searching.
///
/// Listings are taken in the order given, without any pre-sort, and a
/// cost tie keeps the combination found earliest: sizes in increasing
/// order and, within a size, index order (the include-first recursion of
/// `best_exact`).  The contract pins minimal cost over the explored
/// sizes; which of several equally cheap combinations is returned is
/// this documented policy, not a contract clause.
#[verifier::rlimit(100)]
pub fn find_cheapest_combination(s: &Vec<Listing>, amount: u64) -> (r: SearchOutcome)
    ensures
        r.explored_max_size == 0 || r.explored_max_size + 1 <= s@.len(),
        amount == 0 ==> r.chosen@.len() == 0 && r.explored_max_size == 0,
        r.chosen@.len() == 0 ==> no_feasible_upto(s@, amount, r.explored_max_size as int),
        r.chosen@.len() > 0 ==> is_chosen_combo(s@, amount, r.explored_max_size as int, r.chosen@)
            && min_cost_upto(s@, amount, r.explored_max_size as int, r.chosen@),
        r.explored_max_size >= 1 ==> pow(s@.len() as int, r.explored_max_size as nat)
            <= SEARCH_SPACE_BOUND as int,
        amount > 0 && s@.len() >= 2 ==> ({
            ||| r.explored_max_size == s@.len() - 1
            ||| pow(s@.len() as int, (r.explored_max_size + 1) as nat) > SEARCH_SPACE_BOUND as int
            ||| (r.chosen@.len() > 0 && r.explored_max_size >= r.chosen@.len() + 1)
        }),
        search_run(s@, amount, r.chosen@, r.explored_max_size as int),
{
    let ghost nn = s@.len() as int;
    let n = s.len();
    if amount == 0 || n == 0 {
        return SearchOutcome { chosen: Vec::new(), explored_max_size: 0 };
    }
    let mut best: Option<(u128, Vec<Listing>)> = None;
    let mut explored: usize = 0;
    let mut i: usize = 1;
    while i < n
        invariant
            1 <= i <= n,
            n == s@.len(),
            nn == s@.len() as int,
            amount > 0,
            explored == i - 1,
            match best {
                Some((c, combo)) => {
                    &&& c == cost_of(combo@)
                    &&& 1 <= combo@.len() <= explored
                    &&& is_chosen_combo(s@, amount, explored as int, combo@)
                    &&& min_cost_upto(s@, amount, explored as int, combo@)
                },
                None => no_feasible_upto(s@, amount, explored as int),
            },
            explored >= 1 ==> pow(nn, explored as nat) <= SEARCH_SPACE_BOUND as int,
        ensures
            1 <= i <= n,
            n == s@.len(),
            explored == i - 1,
            match best {
                Some((c, combo)) => {
                    &&& c == cost_of(combo@)
                    &&& 1 <= combo@.len() <= explored
                    &&& is_chosen_combo(s@, amount, explored as int, combo@)
                    &&& min_cost_upto(s@, amount, explored as int, combo@)
                },
                None => no_feasible_upto(s@, amount, explored as int),
            },
            explored >= 1 ==> pow(nn, explored as nat) <= SEARCH_SPACE_BOUND as int,
            ({
                ||| explored == n - 1
                ||| pow(nn, (explored + 1) as nat) > SEARCH_SPACE_BOUND as int
                ||| (best matches Some((c, combo)) && explored >= combo@.len() + 1)
            }),
        decreases n - i,
    {
        if pow_exceeds(n, i) {
            break ;
        }
        let stop = match &best {
            Some((_, combo)) => i > combo.len() + 1,
            None => false,
        };
        if stop {
            break ;
        }
        let step = best_exact(s, 0, i, amount);
        match step {
            None => {
                proof {
                    if best is None {
                        assert forall|idxs: Seq<int>|
                            is_combo(idxs, 0, nn) && 1 <= idxs.len() <= i as int implies qty_of(
                            #[trigger] select(s@, idxs),
                        ) < amount by {
                            if idxs.len() <= i - 1 {
                            } else {
                                assert(idxs.len() == i as int);
                            }
                        }
                    } else {
                        let (c, combo) = best->Some_0;
                        assert forall|idxs: Seq<int>|
                            is_combo(idxs, 0, nn) && 1 <= idxs.len() <= i as int && qty_of(
                                #[trigger] select(s@, idxs),
                            ) >= amount implies cost_of(combo@) <= cost_of(select(s@, idxs)) by {
                            if idxs.len() <= i - 1 {
                            } else {
                                assert(idxs.len() == i as int);
                                assert(qty_of(select(s@, idxs)) < amount);
                            }
                        }
                    }
                }
            },
            Some((c2, combo2)) => {
                let replace = match &best {
                    None => true,
                    Some((c, _)) => c2 < *c,
                };
                if replace {
                    proof {
                        let w = choose|idxs: Seq<int>|
                            is_combo(idxs, 0, nn) && idxs.len() == i as int && #[trigger] select(
                                s@,
                                idxs,
                            ) == combo2@;
                        assert(is_chosen_combo(s@, amount, i as int, combo2@));
                        assert forall|idxs: Seq<int>|
                            is_combo(idxs, 0, nn) && 1 <= idxs.len() <= i as int && qty_of(
                                #[trigger] select(s@, idxs),
                            ) >= amount implies cost_of(combo2@) <= cost_of(select(s@, idxs)) by {
                            if idxs.len() <= i - 1 {
                                match best {
                                    Some((c, combo)) => {
                                        assert(cost_of(combo@) <= cost_of(select(s@, idxs)));
                                    },
                                    None => {
                                        assert(qty_of(select(s@, idxs)) < amount);
                                    },
                                }
                            } else {
                                assert(idxs.len() == i as int);
                            }
                        }
                    }
                    best = Some((c2, combo2));
                } else {
                    proof {
                        let (c, combo) = best->Some_0;
                        assert forall|idxs: Seq<int>|
                            is_combo(idxs, 0, nn) && 1 <= idxs.len() <= i as int && qty_of(
                                #[trigger] select(s@, idxs),
                            ) >= amount implies cost_of(combo@) <= cost_of(select(s@, idxs)) by {
                            if idxs.len() <= i - 1 {
                            } else {
                                assert(idxs.len() == i as int);
                                assert(c2 <= cost_of(select(s@, idxs)));
                            }
                        }
                    }
                }
            },
        }
        explored = i;
        i = i + 1;
    }
    match best {
        None => SearchOutcome { chosen: Vec::new(), explored_max_size: explored },
        Some((_, combo)) => SearchOutcome { chosen: combo, explored_max_size: explored },
    }
}

/// The high-quality listings, in their original order.
pub open spec fn hq_only(s: Seq<Listing>) -> Seq<Listing> {
    s.filter(|l: Listing| l.hq)
}

/// Keeps the high-quality listings, preserving order.  This builds the
/// restricted input set for a quality-limited search.
pub fn filter_hq(s: &Vec<Listing>) -> (r: Vec<Listing>)
    ensures
        r@ == hq_only(s@),
{
    let mut out: Vec<Listing> = Vec::new();
    let mut i: usize = 0;
    proof {
        reveal(Seq::filter);
        assert(s@.take(0) =~= Seq::<Listing>::empty());
    }
    while i < s.len()
        invariant
            i <= s@.len(),
            out@ == s@.take(i as int).filter(|l: Listing| l.hq),
        decreases s@.len() - i,
    {
        proof {
            reveal(Seq::filter);
            assert(s@.take(i + 1).drop_last() =~= s@.take(i as int));
            assert(s@.take(i + 1).last() == s@[i as int]);
        }
        if s[i].hq {
            out.push(s[i].clone());
        }
        i = i + 1;
    }
    proof {
        assert(s@.take(s@.len() as int) =~= s@);
    }
    out
}

/// The result handed back to callers: the chosen listings with their
/// summed quantity and cost.  Empty listings signify that no feasible
/// combination was found.
pub struct CombinationResult {
    pub listings: Vec<Listing>,
    pub total_quantity: u128,
    pub total_cost: u128,
}

impl CombinationResult {
    /// Wraps chosen listings together with their exact totals.
    pub fn from_listings(listings: Vec<Listing>) -> (r: CombinationResult)
        ensures
            r.listings == listings,
            r.total_quantity == qty_of(listings@),
            r.total_cost == cost_of(listings@),
    {
        let mut tq: u128 = 0;
        let mut tc: u128 = 0;
        let mut i: usize = 0;
        proof {
            assert(listings@.take(0) =~= Seq::<Listing>::empty());
        }
        while i < listings.len()
            invariant
                i <= listings@.len(),
                tq == qty_of(listings@.take(i as int)),
                tc == cost_of(listings@.take(i as int)),
            decreases listings@.len() - i,
        {
            proof {
                assert(listings@.take(i + 1).drop_last() =~= listings@.take(i as int));
                assert(listings@.take(i + 1).last() == listings@[i as int]);
                lemma_sums_bounded(listings@.take(i as int));
                lemma_sums_nonneg(listings@.take(i as int));
                assert(i as int * 0xffff_ffff_ffff_ffff <= 0xffff_ffff_ffff_ffffu64 as int
                    * 0xffff_ffff_ffff_ffff);
            }
            tq = tq + (listings[i].quantity as u128);
            tc = tc + (listings[i].total_price as u128);
            i = i + 1;
        }
        proof {
            assert(listings@.take(listings@.len() as int) =~= listings@);
        }
        CombinationResult { listings, total_quantity: tq, total_cost: tc }
    }
}

/// A combination selects no more quantity than the whole prefix it draws
/// from.
proof fn lemma_select_le(s: Seq<Listing>, idxs: Seq<int>, hi: int)
    requires
        is_combo(idxs, 0, hi),
        0 <= hi <= s.len(),
    ensures
        qty_of(select(s, idxs)) <= qty_of(s.take(hi)),
    decreases hi,
{
    if hi == 0 {
        lemma_combo_len_bound(idxs, 0, 0);
        assert(select(s, idxs) =~= Seq::<Listing>::empty());
        assert(s.take(0) =~= Seq::<Listing>::empty());
    } else {
        assert(s.take(hi).drop_last() =~= s.take(hi - 1));
        assert(s.take(hi).last() == s[hi - 1]);
        if idxs.len() > 0 && idxs.last() == hi - 1 {
            let d = idxs.drop_last();
            assert(forall|j: int| 0 <= j < d.len() ==> d[j] == idxs[j]);
            assert(forall|j: int| 0 <= j < d.len() ==> #[trigger] d[j] < hi - 1) by {
                assert(forall|j: int| 0 <= j < idxs.len() - 1 ==> #[trigger] idxs[j] < idxs[idxs.len() - 1]);
            }
            assert(is_combo(d, 0, hi - 1));
            lemma_select_le(s, d, hi - 1);
            assert(select(s, idxs) =~= select(s, d).push(s[hi - 1]));
            assert(select(s, d).push(s[hi - 1]).drop_last() =~= select(s, d));
        } else {
            assert(is_combo(idxs, 0, hi - 1)) by {
                if idxs.len() > 0 {
                    assert(forall|j: int|
                        0 <= j < idxs.len() - 1 ==> #[trigger] idxs[j] < idxs[idxs.len() - 1]);
                    assert(idxs.last() < hi - 1);
                }
            }
            lemma_select_le(s, idxs, hi - 1);
        }
    }
}

/// Infeasibility: when the whole listing set together supplies less than
/// `amount`, no combination of any size reaches `amount`, so every search
/// outcome over it is the empty result.
pub proof fn lemma_supply_short_infeasible(s: Seq<Listing>, amount: u64, m: int)
    requires
        qty_of(s) < amount,
    ensures
        no_feasible_upto(s, amount, m),
        no_feasible(s, amount),
        forall|chosen: Seq<Listing>| !is_chosen_combo(s, amount, m, chosen),
{
    assert forall|idxs: Seq<int>|
        is_combo(idxs, 0, s.len() as int) && 1 <= idxs.len() implies qty_of(
        #[trigger] select(s, idxs),
    ) < amount by {
        lemma_select_le(s, idxs, s.len() as int);
        assert(s.take(s.len() as int) =~= s);
    }
    assert forall|chosen: Seq<Listing>| !is_chosen_combo(s, amount, m, chosen) by {
        if is_chosen_combo(s, amount, m, chosen) {
            let idxs = choose|idxs: Seq<int>|
                is_combo(idxs, 0, s.len() as int) && 1 <= idxs.len() <= m && #[trigger] select(
                    s,
                    idxs,
                ) == chosen && qty_of(chosen) >= amount;
            assert(qty_of(select(s, idxs)) < amount);
        }
    }
}

} // verus!

//! Checking the same location constraint twice: the second check finds the
//! street as the first left it.
use vstd::prelude::*;
use crate::types::Trait;
use crate::model::{allows, lemma_narrow_has, lemma_narrow_twice, lemma_strike_absent, lemma_strike_has, narrow, strike, Street};
use crate::location::{
    adjacent_scan, adjacent_turn, lemma_adjacent_scan, lemma_adjacent_scan_narrower, lemma_ordered_scan,
    lemma_ordered_scan_narrower, neighbours, ordered_scan, ordered_turn, settle_pairing, sweep, Pairing,
};
use crate::narrowing::{lemma_narrower_well_formed, well_formed};

verus! {

/// At step `i` of the ordered scan, houses `i` and `i + 1` fit the pair.
pub open spec fn ordered_fit(hs: Street, tl: Trait, tr: Trait, i: int) -> bool {
    let p = ordered_scan(hs, tl, tr, i as nat).0;
    allows(p[i], tl) && allows(p[i + 1], tr)
}

/// After `k` steps of the ordered scan, the houses not reached yet are as
/// they were, and every pair already scanned allows its traits exactly when
/// it fitted at its step.
pub proof fn lemma_ordered_prefix(hs: Street, tl: Trait, tr: Trait, k: nat)
    requires
        well_formed(hs),
        tl != tr,
        k < hs.len(),
    ensures
        ({
            let p = ordered_scan(hs, tl, tr, k).0;
            &&& p.len() == hs.len()
            &&& well_formed(p)
            &&& forall|m: int| k < m < hs.len() ==> #[trigger] p[m] == hs[m]
            &&& forall|i: int|
                0 <= i < k ==> (#[trigger] ordered_fit(hs, tl, tr, i) ==> allows(p[i], tl) && allows(p[i + 1], tr))
                    && (!ordered_fit(hs, tl, tr, i) ==> !allows(p[i], tl) && !allows(p[i + 1], tr))
        }),
    decreases k,
{
    lemma_ordered_scan(hs, tl, tr, k);
    lemma_ordered_scan_narrower(hs, tl, tr, k);
    lemma_narrower_well_formed(ordered_scan(hs, tl, tr, k).0, hs);
    if k > 0 {
        let j = k - 1;
        lemma_ordered_prefix(hs, tl, tr, j as nat);
        let q = ordered_scan(hs, tl, tr, j as nat).0;
        let p = ordered_scan(hs, tl, tr, k).0;
        assert(p == ordered_turn(q, tl, tr, j).0);
        assert forall|i: int|
            0 <= i < k implies (#[trigger] ordered_fit(hs, tl, tr, i) ==> allows(p[i], tl) && allows(p[i + 1], tr))
                && (!ordered_fit(hs, tl, tr, i) ==> !allows(p[i], tl) && !allows(p[i + 1], tr)) by {
            if i < j {
                assert(p[i] == q[i]);
                if i + 1 == j && !ordered_fit(hs, tl, tr, j) {
                    lemma_strike_has(q[j], tl, tr);
                } else {
                    assert(p[i + 1] == q[i + 1]);
                }
            } else {
                if !ordered_fit(hs, tl, tr, j) {
                    lemma_strike_has(q[j], tl, tl);
                    lemma_strike_has(q[j + 1], tr, tr);
                }
            }
        }
    }
}

/// Scanning again the street the ordered scan left changes nothing and finds
/// the same pairings.
pub proof fn lemma_ordered_rescan(hs: Street, tl: Trait, tr: Trait, k: nat)
    requires
        well_formed(hs),
        tl != tr,
        hs.len() >= 1,
        k <= hs.len() - 1,
    ensures
        ordered_scan(ordered_scan(hs, tl, tr, (hs.len() - 1) as nat).0, tl, tr, k)
            == (ordered_scan(hs, tl, tr, (hs.len() - 1) as nat).0, ordered_scan(hs, tl, tr, k).1),
    decreases k,
{
    let n = hs.len();
    let s = ordered_scan(hs, tl, tr, (n - 1) as nat).0;
    lemma_ordered_prefix(hs, tl, tr, (n - 1) as nat);
    if k > 0 {
        let i = k - 1;
        lemma_ordered_rescan(hs, tl, tr, i as nat);
        assert(ordered_fit(hs, tl, tr, i) ==> allows(s[i], tl) && allows(s[i + 1], tr));
        if !ordered_fit(hs, tl, tr, i) {
            lemma_strike_absent(s[i], tl);
            lemma_strike_absent(s[i + 1], tr);
            assert(s.update(i, s[i]).update(i + 1, s[i + 1]) =~= s);
        }
        let first = ordered_turn(ordered_scan(hs, tl, tr, i as nat).0, tl, tr, i);
        let again = ordered_turn(s, tl, tr, i);
        assert(again.1 == first.1);
    }
}

/// Every pairing the ordered scan records is a pair that fitted at its step.
pub proof fn lemma_ordered_entries(hs: Street, tl: Trait, tr: Trait, k: nat)
    requires
        k < hs.len(),
    ensures
        forall|j: int|
            0 <= j < ordered_scan(hs, tl, tr, k).1.len() ==> {
                let e = #[trigger] ordered_scan(hs, tl, tr, k).1[j];
                &&& 0 <= e.0 < k
                &&& e == (e.0, e.0 + 1, tl, tr)
                &&& ordered_fit(hs, tl, tr, e.0)
            },
    decreases k,
{
    if k > 0 {
        lemma_ordered_entries(hs, tl, tr, (k - 1) as nat);
        let prev = ordered_scan(hs, tl, tr, (k - 1) as nat).1;
        let cur = ordered_scan(hs, tl, tr, k).1;
        assert forall|j: int| 0 <= j < cur.len() implies {
            let e = #[trigger] cur[j];
            &&& 0 <= e.0 < k
            &&& e == (e.0, e.0 + 1, tl, tr)
            &&& ordered_fit(hs, tl, tr, e.0)
        } by {
            if j < prev.len() {
                assert(cur[j] == prev[j]);
            }
        }
    }
}

/// The street allows the traits of pairing `e` in its two houses and nowhere
/// else.
pub open spec fn pair_only(o: Street, e: Pairing) -> bool {
    &&& allows(o[e.0], e.2)
    &&& allows(o[e.1], e.3)
    &&& forall|i: int| 0 <= i < o.len() && i != e.0 ==> !allows(#[trigger] o[i], e.2)
    &&& forall|i: int| 0 <= i < o.len() && i != e.1 ==> !allows(#[trigger] o[i], e.3)
}

/// The ordered scan of a street that allows its traits only in one pair of
/// neighbours changes nothing and finds that pair.
pub proof fn lemma_ordered_scan_pair_only(o: Street, e: Pairing, k: nat)
    requires
        well_formed(o),
        0 <= e.0,
        e.1 == e.0 + 1,
        e.1 < o.len(),
        pair_only(o, e),
        k <= o.len() - 1,
    ensures
        ordered_scan(o, e.2, e.3, k) == (o, if e.0 < k { seq![e] } else { Seq::<Pairing>::empty() }),
    decreases k,
{
    if k > 0 {
        let i = k - 1;
        lemma_ordered_scan_pair_only(o, e, i as nat);
        if i != e.0 {
            assert(!allows(o[i], e.2));
            lemma_strike_absent(o[i], e.2);
            assert(!allows(o[i + 1], e.3));
            lemma_strike_absent(o[i + 1], e.3);
            assert(o.update(i, o[i]).update(i + 1, o[i + 1]) =~= o);
        }
        let prev: Seq<Pairing> = if e.0 < i { seq![e] } else { Seq::<Pairing>::empty() };
        let cur: Seq<Pairing> = if e.0 < k { seq![e] } else { Seq::<Pairing>::empty() };
        assert(ordered_scan(o, e.2, e.3, k).1 =~= cur);
    }
}

/// The street before step `i` of the adjacent scan.
pub open spec fn adj_before(hs: Street, t1: Trait, t2: Trait, i: int) -> Street {
    adjacent_scan(hs, t1, t2, i as nat).0
}

/// At step `i` of the adjacent scan, the left neighbour may hold `t`.
pub open spec fn adj_left(hs: Street, t1: Trait, t2: Trait, i: int, t: Trait) -> bool {
    i > 0 && allows(adj_before(hs, t1, t2, i)[i - 1], t)
}

/// At step `i` of the adjacent scan, the right neighbour may hold `t`.
pub open spec fn adj_right(hs: Street, t1: Trait, t2: Trait, i: int, t: Trait) -> bool {
    i + 1 < hs.len() && allows(adj_before(hs, t1, t2, i)[i + 1], t)
}

/// At step `i` of the adjacent scan, house `i` may hold `t`.
pub open spec fn adj_here(hs: Street, t1: Trait, t2: Trait, i: int, t: Trait) -> bool {
    allows(adj_before(hs, t1, t2, i)[i], t)
}

/// Step `i` of the adjacent scan changes house `i` only: it keeps `t1` if it
/// had it and a neighbour may hold `t2`, and `t2` likewise.
pub proof fn lemma_adjacent_step(hs: Street, t1: Trait, t2: Trait, i: int)
    requires
        well_formed(hs),
        t1 != t2,
        0 <= i < hs.len(),
    ensures
        ({
            let p = adj_before(hs, t1, t2, i);
            let q = adj_before(hs, t1, t2, i + 1);
            &&& p.len() == hs.len()
            &&& q.len() == hs.len()
            &&& well_formed(p)
            &&& well_formed(q)
            &&& forall|m: int| 0 <= m < hs.len() && m != i ==> #[trigger] q[m] == p[m]
            &&& allows(q[i], t1) == (adj_here(hs, t1, t2, i, t1) && (adj_left(hs, t1, t2, i, t2) || adj_right(
                hs,
                t1,
                t2,
                i,
                t2,
            )))
            &&& allows(q[i], t2) == (adj_here(hs, t1, t2, i, t2) && (adj_left(hs, t1, t2, i, t1) || adj_right(
                hs,
                t1,
                t2,
                i,
                t1,
            )))
        }),
{
    let p = adj_before(hs, t1, t2, i);
    lemma_adjacent_scan(hs, t1, t2, i as nat);
    lemma_adjacent_scan(hs, t1, t2, (i + 1) as nat);
    lemma_adjacent_scan_narrower(hs, t1, t2, i as nat);
    lemma_adjacent_scan_narrower(hs, t1, t2, (i + 1) as nat);
    lemma_narrower_well_formed(p, hs);
    lemma_narrower_well_formed(adj_before(hs, t1, t2, i + 1), hs);
    assert(adj_before(hs, t1, t2, i + 1) == adjacent_turn(p, t1, t2, i).0);
    lemma_strike_has(p[i], t1, t1);
    lemma_strike_has(p[i], t1, t2);
    lemma_strike_has(strike(p[i], t1), t2, t1);
    lemma_strike_has(strike(p[i], t1), t2, t2);
    lemma_strike_has(p[i], t2, t1);
    lemma_strike_has(p[i], t2, t2);
}

/// After `k` steps of the adjacent scan, the houses not reached yet are as
/// they were, and every house already scanned is as its own step left it.
pub proof fn lemma_adjacent_prefix(hs: Street, t1: Trait, t2: Trait, k: nat)
    requires
        well_formed(hs),
        t1 != t2,
        k <= hs.len(),
    ensures
        forall|m: int| k <= m < hs.len() ==> #[trigger] adj_before(hs, t1, t2, k as int)[m] == hs[m],
        forall|j: int|
            0 <= j < k ==> #[trigger] adj_before(hs, t1, t2, k as int)[j] == adj_before(hs, t1, t2, j + 1)[j],
    decreases k,
{
    if k > 0 {
        let i = k - 1;
        lemma_adjacent_prefix(hs, t1, t2, i as nat);
        lemma_adjacent_step(hs, t1, t2, i);
        let q = adj_before(hs, t1, t2, k as int);
        let p = adj_before(hs, t1, t2, i);
        assert forall|j: int| 0 <= j < k implies #[trigger] q[j] == adj_before(hs, t1, t2, j + 1)[j] by {
            if j < i {
                assert(q[j] == p[j]);
            }
        }
        assert forall|m: int| k <= m < hs.len() implies #[trigger] q[m] == hs[m] by {
            assert(q[m] == p[m]);
        }
    }
}

/// Scanning again the street the adjacent scan left changes nothing and
/// finds the same pairings.
pub proof fn lemma_adjacent_rescan(hs: Street, t1: Trait, t2: Trait, k: nat)
    requires
        well_formed(hs),
        t1 != t2,
        k <= hs.len(),
    ensures
        adjacent_scan(adj_before(hs, t1, t2, hs.len() as int), t1, t2, k) == (
            adj_before(hs, t1, t2, hs.len() as int),
            adjacent_scan(hs, t1, t2, k).1,
        ),
    decreases k,
{
    let n = hs.len() as int;
    let s = adj_before(hs, t1, t2, n);
    lemma_adjacent_scan(hs, t1, t2, n as nat);
    if k > 0 {
        let i = k - 1;
        lemma_adjacent_rescan(hs, t1, t2, i as nat);
        lemma_adjacent_prefix(hs, t1, t2, n as nat);
        lemma_adjacent_prefix(hs, t1, t2, i as nat);
        lemma_adjacent_prefix(hs, t1, t2, (i + 1) as nat);
        lemma_adjacent_step(hs, t1, t2, i);
        let p = adj_before(hs, t1, t2, i);
        let q = adj_before(hs, t1, t2, i + 1);
        assert(s[i] == q[i]);
        assert(p.len() == n && q.len() == n && s.len() == n);
        let l1 = adj_left(hs, t1, t2, i, t2);
        let r1 = adj_right(hs, t1, t2, i, t2);
        let l2 = adj_left(hs, t1, t2, i, t1);
        let r2 = adj_right(hs, t1, t2, i, t1);
        let l1s = i > 0 && allows(s[i - 1], t2);
        let r1s = i + 1 < n && allows(s[i + 1], t2);
        let l2s = i > 0 && allows(s[i - 1], t1);
        let r2s = i + 1 < n && allows(s[i + 1], t1);
        if i > 0 {
            assert(s[i - 1] == adj_before(hs, t1, t2, i)[i - 1]);
        }
        assert(l1s == l1 && l2s == l2);
        if i + 1 < n {
            lemma_adjacent_step(hs, t1, t2, i + 1);
            let q2 = adj_before(hs, t1, t2, i + 2);
            assert(s[i + 1] == q2[i + 1]);
            assert(q[i + 1] == hs[i + 1]);
            assert(p[i + 1] == hs[i + 1]);
            assert(adj_left(hs, t1, t2, i + 1, t1) == allows(s[i], t1));
            assert(adj_left(hs, t1, t2, i + 1, t2) == allows(s[i], t2));
            assert(r1s == (r1 && (allows(s[i], t1) || adj_right(hs, t1, t2, i + 1, t1))));
            assert(r2s == (r2 && (allows(s[i], t2) || adj_right(hs, t1, t2, i + 1, t2))));
        }
        assert(allows(s[i], t1) ==> l1s || r1s);
        assert(allows(s[i], t2) ==> l2s || r2s);
        if !(l1s || r1s) {
            lemma_strike_absent(s[i], t1);
            assert(s.update(i, s[i]) =~= s);
        }
        if !(l2s || r2s) {
            lemma_strike_absent(s[i], t2);
            assert(s.update(i, s[i]) =~= s);
        }
        let first = adjacent_turn(p, t1, t2, i);
        let again = adjacent_turn(s, t1, t2, i);
        assert(again.0 == s);
        assert(again.1 =~= first.1);
    }
}

/// Every pairing the adjacent scan records was found at the step of the
/// house of `t1`: with the left neighbour allowing `t2`, or the right one.
pub proof fn lemma_adjacent_entries(hs: Street, t1: Trait, t2: Trait, k: nat)
    requires
        k <= hs.len(),
    ensures
        forall|j: int|
            0 <= j < adjacent_scan(hs, t1, t2, k).1.len() ==> {
                let e = #[trigger] adjacent_scan(hs, t1, t2, k).1[j];
                &&& 0 <= e.0
                &&& e.1 == e.0 + 1
                &&& e.1 < hs.len()
                &&& (e.2 == t2 && e.3 == t1 && e.1 < k && adj_here(hs, t1, t2, e.1, t1) && adj_left(hs, t1, t2, e.1, t2))
                    || (e.2 == t1 && e.3 == t2 && e.0 < k && adj_here(hs, t1, t2, e.0, t1) && adj_right(
                    hs,
                    t1,
                    t2,
                    e.0,
                    t2,
                ))
            },
    decreases k,
{
    if k > 0 {
        lemma_adjacent_entries(hs, t1, t2, (k - 1) as nat);
        let i = k - 1;
        let prev = adjacent_scan(hs, t1, t2, i as nat);
        let cur = adjacent_scan(hs, t1, t2, k).1;
        let p = prev.0;
        lemma_adjacent_scan(hs, t1, t2, i as nat);
        let here = allows(p[i], t1);
        let left_1 = i > 0 && allows(p[i - 1], t2);
        let right_1 = i + 1 < hs.len() && allows(p[i + 1], t2);
        let found_left: Seq<Pairing> = if here && left_1 { seq![(i - 1, i, t2, t1)] } else { seq![] };
        let found_right: Seq<Pairing> = if here && right_1 { seq![(i, i + 1, t1, t2)] } else { seq![] };
        assert(cur =~= prev.1 + found_left + found_right);
        assert forall|j: int| 0 <= j < cur.len() implies {
            let e = #[trigger] cur[j];
            &&& 0 <= e.0
            &&& e.1 == e.0 + 1
            &&& e.1 < hs.len()
            &&& (e.2 == t2 && e.3 == t1 && e.1 < k && adj_here(hs, t1, t2, e.1, t1) && adj_left(hs, t1, t2, e.1, t2))
                || (e.2 == t1 && e.3 == t2 && e.0 < k && adj_here(hs, t1, t2, e.0, t1) && adj_right(hs, t1, t2, e.0, t2))
        } by {
            if j < prev.1.len() {
                assert(cur[j] == prev.1[j]);
            } else if j < prev.1.len() + found_left.len() {
                assert(cur[j] == found_left[j - prev.1.len()]);
            } else {
                assert(cur[j] == found_right[j - prev.1.len() - found_left.len()]);
            }
        }
    }
}

/// The street the scan of a location constraint leaves allows the traits of
/// each recorded pairing in its houses.
pub proof fn lemma_adjacent_entry_allows(hs: Street, t1: Trait, t2: Trait, e: Pairing)
    requires
        well_formed(hs),
        t1 != t2,
        adjacent_scan(hs, t1, t2, hs.len()).1.contains(e),
    ensures
        allows(adj_before(hs, t1, t2, hs.len() as int)[e.0], e.2),
        allows(adj_before(hs, t1, t2, hs.len() as int)[e.1], e.3),
        neighbours(e, hs.len() as int),
{
    let n = hs.len() as int;
    let s = adj_before(hs, t1, t2, n);
    lemma_adjacent_entries(hs, t1, t2, n as nat);
    let found = adjacent_scan(hs, t1, t2, n as nat).1;
    let j = choose|j: int| 0 <= j < found.len() && #[trigger] found[j] == e;
    assert(found[j] == e);
    lemma_adjacent_prefix(hs, t1, t2, n as nat);
    if e.2 == t2 && e.3 == t1 && adj_here(hs, t1, t2, e.1, t1) && adj_left(hs, t1, t2, e.1, t2) {
        let i = e.1;
        lemma_adjacent_step(hs, t1, t2, i);
        lemma_adjacent_prefix(hs, t1, t2, i as nat);
        assert(s[i] == adj_before(hs, t1, t2, i + 1)[i]);
        assert(s[i - 1] == adj_before(hs, t1, t2, i)[i - 1]);
    } else {
        let i = e.0;
        lemma_adjacent_step(hs, t1, t2, i);
        lemma_adjacent_step(hs, t1, t2, i + 1);
        lemma_adjacent_prefix(hs, t1, t2, i as nat);
        lemma_adjacent_prefix(hs, t1, t2, (i + 1) as nat);
        assert(s[i] == adj_before(hs, t1, t2, i + 1)[i]);
        assert(s[i + 1] == adj_before(hs, t1, t2, i + 2)[i + 1]);
        assert(adj_before(hs, t1, t2, i + 1)[i + 1] == hs[i + 1]);
        assert(adj_before(hs, t1, t2, i)[i + 1] == hs[i + 1]);
    }
}

/// The adjacent scan of a street that allows its two traits only in one pair
/// of neighbours changes nothing and finds that pair.
pub proof fn lemma_adjacent_scan_pair_only(o: Street, t1: Trait, t2: Trait, e: Pairing, k: nat)
    requires
        well_formed(o),
        neighbours(e, o.len() as int),
        pair_only(o, e),
        (e.2 == t1 && e.3 == t2) || (e.2 == t2 && e.3 == t1),
        k <= o.len(),
    ensures
        adjacent_scan(o, t1, t2, k) == (
            o,
            if (if e.2 == t1 { e.0 } else { e.1 }) < k { seq![e] } else { Seq::<Pairing>::empty() },
        ),
    decreases k,
{
    if k > 0 {
        let i = k - 1;
        lemma_adjacent_scan_pair_only(o, t1, t2, e, i as nat);
        let u = if e.2 == t1 { e.0 } else { e.1 };
        let v = if e.2 == t1 { e.1 } else { e.0 };
        assert(forall|m: int| 0 <= m < o.len() ==> (allows(#[trigger] o[m], t1) <==> m == u));
        assert(forall|m: int| 0 <= m < o.len() ==> (allows(#[trigger] o[m], t2) <==> m == v));
        if i != u {
            lemma_strike_absent(o[i], t1);
            assert(o.update(i, o[i]) =~= o);
        }
        if i != v {
            lemma_strike_absent(o[i], t2);
            assert(o.update(i, o[i]) =~= o);
        }
        let turn = adjacent_turn(o, t1, t2, i);
        assert(turn.0 == o);
        let prev: Seq<Pairing> = if u < i { seq![e] } else { Seq::<Pairing>::empty() };
        let cur: Seq<Pairing> = if u < k { seq![e] } else { Seq::<Pairing>::empty() };
        assert(prev + turn.1 =~= cur);
    }
}

/// Settling a pairing leaves its traits in its two houses only.
pub proof fn lemma_settle_pair_only(s: Street, e: Pairing)
    requires
        well_formed(s),
        neighbours(e, s.len() as int),
        e.2 != e.3,
        allows(s[e.0], e.2),
        allows(s[e.1], e.3),
    ensures
        pair_only(settle_pairing(s, e), e),
        well_formed(settle_pairing(s, e)),
{
    let n = s.len() as int;
    let t = sweep(s, e.0, e.1, e.2, e.3, n);
    let o = settle_pairing(s, e);
    assert forall|i: int| 0 <= i < n implies {
        &&& (#[trigger] o[i]).len() == 6
        &&& (i != e.0 ==> !allows(o[i], e.2))
        &&& (i != e.1 ==> !allows(o[i], e.3))
        &&& (i == e.0 ==> allows(o[i], e.2))
        &&& (i == e.1 ==> allows(o[i], e.3))
    } by {
        let h = s[i];
        assert(h.len() == 6);
        let h1 = if i != e.0 { strike(h, e.2) } else { h };
        lemma_strike_has(h, e.2, e.2);
        lemma_strike_has(h, e.2, e.3);
        lemma_strike_has(h1, e.3, e.2);
        lemma_strike_has(h1, e.3, e.3);
        lemma_narrow_has(t[i], e.2, e.2);
        lemma_narrow_has(t[i], e.2, e.3);
        lemma_narrow_has(t[i], e.3, e.2);
        lemma_narrow_has(t[i], e.3, e.3);
    }
}

/// Settling the same pairing again changes nothing.
pub proof fn lemma_settle_twice(s: Street, e: Pairing)
    requires
        well_formed(s),
        neighbours(e, s.len() as int),
        pair_only(settle_pairing(s, e), e),
        well_formed(settle_pairing(s, e)),
    ensures
        settle_pairing(settle_pairing(s, e), e) == settle_pairing(s, e),
{
    let n = s.len() as int;
    let o = settle_pairing(s, e);
    let t = sweep(s, e.0, e.1, e.2, e.3, n);
    let t2 = sweep(o, e.0, e.1, e.2, e.3, n);
    assert forall|i: int| 0 <= i < n implies #[trigger] t2[i] == o[i] by {
        if i != e.0 {
            lemma_strike_absent(o[i], e.2);
        }
        if i != e.1 {
            lemma_strike_absent(o[i], e.3);
        }
    }
    assert(t2 =~= o);
    assert(o[e.0] == narrow(t[e.0], e.2));
    assert(o[e.1] == narrow(t[e.1], e.3));
    lemma_narrow_twice(t[e.0], e.2);
    lemma_narrow_twice(t[e.1], e.3);
    assert(settle_pairing(o, e) =~= o);
}

/// The number of houses `i < k` such that house `i` allows `tl` and house
/// `i + 1` allows `tr`.
pub open spec fn ordered_pair_count(x: Street, tl: Trait, tr: Trait, k: nat) -> nat
    decreases k,
{
    if k == 0 {
        0
    } else {
        let i = k - 1;
        ordered_pair_count(x, tl, tr, (k - 1) as nat) + if allows(x[i], tl) && allows(x[i + 1], tr) {
            1nat
        } else {
            0nat
        }
    }
}

/// The number of ordered pairs of neighbours among houses `u < k` such that
/// house `u` allows `t1` and its neighbour allows `t2`.
pub open spec fn adjacent_pair_count(x: Street, t1: Trait, t2: Trait, k: nat) -> nat
    decreases k,
{
    if k == 0 {
        0
    } else {
        let u = k - 1;
        adjacent_pair_count(x, t1, t2, (k - 1) as nat) + (if allows(x[u], t1) && u > 0 && allows(x[u - 1], t2) {
            1nat
        } else {
            0nat
        }) + (if allows(x[u], t1) && u + 1 < x.len() && allows(x[u + 1], t2) {
            1nat
        } else {
            0nat
        })
    }
}

/// On a street the ordered scan leaves as it is, it records one pairing for
/// each fitting pair of neighbours.
pub proof fn lemma_ordered_count(x: Street, tl: Trait, tr: Trait, k: nat)
    requires
        k < x.len(),
        forall|j: nat| j <= k ==> (#[trigger] ordered_scan(x, tl, tr, j)).0 == x,
    ensures
        ordered_scan(x, tl, tr, k).1.len() == ordered_pair_count(x, tl, tr, k),
    decreases k,
{
    if k > 0 {
        assert(ordered_scan(x, tl, tr, (k - 1) as nat).0 == x);
        lemma_ordered_count(x, tl, tr, (k - 1) as nat);
    }
}

/// On a street the adjacent scan leaves as it is, it records one pairing for
/// each fitting ordered pair of neighbours.
pub proof fn lemma_adjacent_count(x: Street, t1: Trait, t2: Trait, k: nat)
    requires
        k <= x.len(),
        forall|j: nat| j <= k ==> (#[trigger] adjacent_scan(x, t1, t2, j)).0 == x,
    ensures
        adjacent_scan(x, t1, t2, k).1.len() == adjacent_pair_count(x, t1, t2, k),
    decreases k,
{
    if k > 0 {
        assert(adjacent_scan(x, t1, t2, (k - 1) as nat).0 == x);
        lemma_adjacent_count(x, t1, t2, (k - 1) as nat);
    }
}

} // verus!

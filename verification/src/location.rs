use vstd::prelude::*;
use crate::types::{House, Location, LocationConstraint, Trait};
use crate::model::{allows, lemma_strike_absent, lemma_strike_has, lists, narrow, strike, Street};
use crate::house_ops::{contains, delete_all_except, delete_trait};
use crate::narrowing::{
    house_narrower, lemma_house_narrower_refl, lemma_house_narrower_trans, lemma_narrow_narrower,
    lemma_narrower_refl, lemma_narrower_trans, lemma_narrower_well_formed, lemma_strike_at_narrower,
    lemma_strike_narrower, lemma_update_narrower, narrower, well_formed,
};

verus! {

/// A pair of neighbouring houses that may hold the two traits:
/// (left house, right house, trait of the left house, trait of the right house).
pub type Pairing = (int, int, Trait, Trait);

/// The pairings in a list of found pairings, with indices as integers.
pub open spec fn pairings(found: Seq<(usize, usize, Trait, Trait)>) -> Seq<Pairing> {
    Seq::new(found.len(), |k: int| (found[k].0 as int, found[k].1 as int, found[k].2, found[k].3))
}

/// Step `i` of the scan for "`tl` directly left of `tr`": if house `i` may
/// hold `tl` and house `i + 1` may hold `tr`, the pair is recorded; otherwise
/// `tl` is struck from house `i` and `tr` from house `i + 1`.
pub open spec fn ordered_turn(s: Street, tl: Trait, tr: Trait, i: int) -> (Street, Seq<Pairing>) {
    if allows(s[i], tl) && allows(s[i + 1], tr) {
        (s, seq![(i, i + 1, tl, tr)])
    } else {
        (s.update(i, strike(s[i], tl)).update(i + 1, strike(s[i + 1], tr)), seq![])
    }
}

/// The street after the first `k` steps of the ordered scan, with the
/// pairings recorded so far.
pub open spec fn ordered_scan(hs: Street, tl: Trait, tr: Trait, k: nat) -> (Street, Seq<Pairing>)
    decreases k,
{
    if k == 0 {
        (hs, seq![])
    } else {
        let prev = ordered_scan(hs, tl, tr, (k - 1) as nat);
        let turn = ordered_turn(prev.0, tl, tr, k - 1);
        (turn.0, prev.1 + turn.1)
    }
}

/// Step `i` of the scan for "`t1` next to `t2`": house `i` keeps `t1` only if
/// a neighbour may hold `t2`, and keeps `t2` only if a neighbour may hold
/// `t1`; each neighbour that may hold `t2` while house `i` may hold `t1` is
/// recorded as a pairing, the left one first.
pub open spec fn adjacent_turn(s: Street, t1: Trait, t2: Trait, i: int) -> (Street, Seq<Pairing>) {
    let n = s.len();
    let left_1 = i > 0 && allows(s[i - 1], t2);
    let right_1 = i + 1 < n && allows(s[i + 1], t2);
    let left_2 = i > 0 && allows(s[i - 1], t1);
    let right_2 = i + 1 < n && allows(s[i + 1], t1);
    let s1 = if left_1 || right_1 { s } else { s.update(i, strike(s[i], t1)) };
    let s2 = if left_2 || right_2 { s1 } else { s1.update(i, strike(s1[i], t2)) };
    let here = allows(s[i], t1);
    let found_left: Seq<Pairing> = if here && left_1 { seq![(i - 1, i, t2, t1)] } else { seq![] };
    let found_right: Seq<Pairing> = if here && right_1 { seq![(i, i + 1, t1, t2)] } else { seq![] };
    (s2, found_left + found_right)
}

/// The street after the first `k` steps of the adjacent scan, with the
/// pairings recorded so far.
pub open spec fn adjacent_scan(hs: Street, t1: Trait, t2: Trait, k: nat) -> (Street, Seq<Pairing>)
    decreases k,
{
    if k == 0 {
        (hs, seq![])
    } else {
        let prev = adjacent_scan(hs, t1, t2, (k - 1) as nat);
        let turn = adjacent_turn(prev.0, t1, t2, k - 1);
        (turn.0, prev.1 + turn.1)
    }
}

/// The first `k` steps of striking a settled pairing of houses `a` and `b`
/// elsewhere: at each step `i`, `x` is struck from house `i` unless it is
/// `a`, then `y` unless it is `b`.
pub open spec fn sweep(s: Street, a: int, b: int, x: Trait, y: Trait, k: int) -> Street {
    Seq::new(
        s.len(),
        |i: int|
            if i < k {
                let h = if i != a { strike(s[i], x) } else { s[i] };
                if i != b { strike(h, y) } else { h }
            } else {
                s[i]
            },
    )
}

/// The street once pairing `e` is known to be the only one: its left trait
/// is struck from every other house, its right trait likewise, and its two
/// houses keep only them in their categories.
pub open spec fn settle_pairing(s: Street, e: Pairing) -> Street {
    let t = sweep(s, e.0, e.1, e.2, e.3, s.len() as int);
    t.update(e.0, narrow(t[e.0], e.2)).update(e.1, narrow(t[e.1], e.3))
}

/// The street after the scan of a location constraint, with the pairings found.
pub open spec fn location_scan(hs: Street, c: LocationConstraint) -> (Street, Seq<Pairing>) {
    match c.location {
        Location::Left => ordered_scan(hs, c.trait_1, c.trait_2, (hs.len() - 1) as nat),
        Location::Right => ordered_scan(hs, c.trait_2, c.trait_1, (hs.len() - 1) as nat),
        Location::NextTo => adjacent_scan(hs, c.trait_1, c.trait_2, hs.len()),
    }
}

/// The constraint is settled: the scan found exactly one pairing.
pub open spec fn location_settles(hs: Street, c: LocationConstraint) -> bool {
    location_scan(hs, c).1.len() == 1
}

/// The street after checking a location constraint.
pub open spec fn location_outcome(hs: Street, c: LocationConstraint) -> Street {
    let scan = location_scan(hs, c);
    if scan.1.len() == 1 {
        settle_pairing(scan.0, scan.1[0])
    } else {
        scan.0
    }
}

/// A pairing of two neighbouring houses of a street of `n` houses.
pub open spec fn neighbours(e: Pairing, n: int) -> bool {
    0 <= e.0 && e.1 == e.0 + 1 && e.1 < n
}

/// The ordered scan keeps the street's length and records only neighbours.
pub proof fn lemma_ordered_scan(hs: Street, tl: Trait, tr: Trait, k: nat)
    requires
        k < hs.len(),
    ensures
        ordered_scan(hs, tl, tr, k).0.len() == hs.len(),
        forall|j: int|
            0 <= j < ordered_scan(hs, tl, tr, k).1.len() ==> neighbours(
                #[trigger] ordered_scan(hs, tl, tr, k).1[j],
                hs.len() as int,
            ),
    decreases k,
{
    if k > 0 {
        lemma_ordered_scan(hs, tl, tr, (k - 1) as nat);
        let prev = ordered_scan(hs, tl, tr, (k - 1) as nat);
        let cur = ordered_scan(hs, tl, tr, k);
        assert forall|j: int| 0 <= j < cur.1.len() implies neighbours(#[trigger] cur.1[j], hs.len() as int) by {
            if j < prev.1.len() {
                assert(cur.1[j] == prev.1[j]);
            }
        }
    }
}

/// The adjacent scan keeps the street's length and records only neighbours.
pub proof fn lemma_adjacent_scan(hs: Street, t1: Trait, t2: Trait, k: nat)
    requires
        k <= hs.len(),
    ensures
        adjacent_scan(hs, t1, t2, k).0.len() == hs.len(),
        forall|j: int|
            0 <= j < adjacent_scan(hs, t1, t2, k).1.len() ==> neighbours(
                #[trigger] adjacent_scan(hs, t1, t2, k).1[j],
                hs.len() as int,
            ),
    decreases k,
{
    if k > 0 {
        lemma_adjacent_scan(hs, t1, t2, (k - 1) as nat);
        let prev = adjacent_scan(hs, t1, t2, (k - 1) as nat);
        let cur = adjacent_scan(hs, t1, t2, k);
        assert forall|j: int| 0 <= j < cur.1.len() implies neighbours(#[trigger] cur.1[j], hs.len() as int) by {
            if j < prev.1.len() {
                assert(cur.1[j] == prev.1[j]);
            }
        }
    }
}

/// Every pairing of a location scan is a pair of neighbours, and the scan
/// keeps the street's length.
pub proof fn lemma_location_scan(hs: Street, c: LocationConstraint)
    requires
        c.location != Location::NextTo ==> hs.len() >= 1,
    ensures
        location_scan(hs, c).0.len() == hs.len(),
        forall|j: int|
            0 <= j < location_scan(hs, c).1.len() ==> neighbours(
                #[trigger] location_scan(hs, c).1[j],
                hs.len() as int,
            ),
{
    match c.location {
        Location::Left => lemma_ordered_scan(hs, c.trait_1, c.trait_2, (hs.len() - 1) as nat),
        Location::Right => lemma_ordered_scan(hs, c.trait_2, c.trait_1, (hs.len() - 1) as nat),
        Location::NextTo => lemma_adjacent_scan(hs, c.trait_1, c.trait_2, hs.len()),
    }
}

/// A step of the ordered scan only strikes values.
proof fn lemma_ordered_turn_narrower(s: Street, tl: Trait, tr: Trait, i: int)
    requires
        well_formed(s),
        0 <= i,
        i + 1 < s.len(),
    ensures
        narrower(ordered_turn(s, tl, tr, i).0, s),
{
    if allows(s[i], tl) && allows(s[i + 1], tr) {
        lemma_narrower_refl(s);
    } else {
        let s1 = s.update(i, strike(s[i], tl));
        lemma_strike_at_narrower(s, i, tl);
        lemma_strike_at_narrower(s1, i + 1, tr);
        assert(s1[i + 1] == s[i + 1]);
        lemma_narrower_trans(ordered_turn(s, tl, tr, i).0, s1, s);
    }
}

/// The ordered scan only strikes values.
pub proof fn lemma_ordered_scan_narrower(hs: Street, tl: Trait, tr: Trait, k: nat)
    requires
        well_formed(hs),
        k < hs.len(),
    ensures
        narrower(ordered_scan(hs, tl, tr, k).0, hs),
    decreases k,
{
    if k == 0 {
        lemma_narrower_refl(hs);
    } else {
        lemma_ordered_scan_narrower(hs, tl, tr, (k - 1) as nat);
        let prev = ordered_scan(hs, tl, tr, (k - 1) as nat).0;
        lemma_narrower_well_formed(prev, hs);
        lemma_ordered_turn_narrower(prev, tl, tr, k - 1);
        lemma_narrower_trans(ordered_scan(hs, tl, tr, k).0, prev, hs);
    }
}

/// A step of the adjacent scan only strikes values.
proof fn lemma_adjacent_turn_narrower(s: Street, t1: Trait, t2: Trait, i: int)
    requires
        well_formed(s),
        0 <= i < s.len(),
    ensures
        narrower(adjacent_turn(s, t1, t2, i).0, s),
{
    let n = s.len();
    let left_1 = i > 0 && allows(s[i - 1], t2);
    let right_1 = i + 1 < n && allows(s[i + 1], t2);
    let left_2 = i > 0 && allows(s[i - 1], t1);
    let right_2 = i + 1 < n && allows(s[i + 1], t1);
    let s1 = if left_1 || right_1 { s } else { s.update(i, strike(s[i], t1)) };
    lemma_strike_at_narrower(s, i, t1);
    lemma_narrower_refl(s);
    assert(narrower(s1, s) && well_formed(s1));
    lemma_strike_at_narrower(s1, i, t2);
    lemma_narrower_refl(s1);
    lemma_narrower_trans(adjacent_turn(s, t1, t2, i).0, s1, s);
}

/// The adjacent scan only strikes values.
pub proof fn lemma_adjacent_scan_narrower(hs: Street, t1: Trait, t2: Trait, k: nat)
    requires
        well_formed(hs),
        k <= hs.len(),
    ensures
        narrower(adjacent_scan(hs, t1, t2, k).0, hs),
    decreases k,
{
    if k == 0 {
        lemma_narrower_refl(hs);
    } else {
        lemma_adjacent_scan_narrower(hs, t1, t2, (k - 1) as nat);
        let prev = adjacent_scan(hs, t1, t2, (k - 1) as nat).0;
        lemma_narrower_well_formed(prev, hs);
        lemma_adjacent_turn_narrower(prev, t1, t2, k - 1);
        lemma_narrower_trans(adjacent_scan(hs, t1, t2, k).0, prev, hs);
    }
}

/// Settling a pairing only strikes values.
pub proof fn lemma_settle_pairing_narrower(s: Street, e: Pairing)
    requires
        well_formed(s),
        neighbours(e, s.len() as int),
    ensures
        narrower(settle_pairing(s, e), s),
{
    let t = sweep(s, e.0, e.1, e.2, e.3, s.len() as int);
    assert forall|i: int| 0 <= i < s.len() implies house_narrower(#[trigger] t[i], s[i]) by {
        let h = s[i];
        lemma_strike_narrower(h, e.2);
        let h1 = if i != e.0 { strike(h, e.2) } else { h };
        lemma_house_narrower_refl(h);
        lemma_strike_narrower(h1, e.3);
        lemma_house_narrower_trans(strike(h1, e.3), h1, h);
        lemma_house_narrower_refl(h1);
        assert(house_narrower(h1, h));
    }
    assert(narrower(t, s));
    lemma_narrower_well_formed(t, s);
    lemma_narrow_narrower(t[e.0], e.2);
    lemma_update_narrower(t, e.0, narrow(t[e.0], e.2));
    let t1 = t.update(e.0, narrow(t[e.0], e.2));
    lemma_narrower_well_formed(t1, t);
    lemma_narrow_narrower(t1[e.1], e.3);
    lemma_update_narrower(t1, e.1, narrow(t1[e.1], e.3));
    assert(t1[e.1] == t[e.1]);
    lemma_narrower_trans(t1, t, s);
    lemma_narrower_trans(settle_pairing(s, e), t1, s);
}

/// The scan of a location constraint only strikes values.
pub proof fn lemma_location_scan_narrower(hs: Street, c: LocationConstraint)
    requires
        well_formed(hs),
        c.location != Location::NextTo ==> hs.len() >= 1,
    ensures
        narrower(location_scan(hs, c).0, hs),
{
    match c.location {
        Location::Left => lemma_ordered_scan_narrower(hs, c.trait_1, c.trait_2, (hs.len() - 1) as nat),
        Location::Right => lemma_ordered_scan_narrower(hs, c.trait_2, c.trait_1, (hs.len() - 1) as nat),
        Location::NextTo => lemma_adjacent_scan_narrower(hs, c.trait_1, c.trait_2, hs.len()),
    }
}

/// Checking a location constraint only strikes values.
pub proof fn lemma_location_outcome_narrower(hs: Street, c: LocationConstraint)
    requires
        well_formed(hs),
        c.location != Location::NextTo ==> hs.len() >= 1,
    ensures
        narrower(location_outcome(hs, c), hs),
{
    let scan = location_scan(hs, c);
    match c.location {
        Location::Left => lemma_ordered_scan_narrower(hs, c.trait_1, c.trait_2, (hs.len() - 1) as nat),
        Location::Right => lemma_ordered_scan_narrower(hs, c.trait_2, c.trait_1, (hs.len() - 1) as nat),
        Location::NextTo => lemma_adjacent_scan_narrower(hs, c.trait_1, c.trait_2, hs.len()),
    }
    lemma_location_scan(hs, c);
    if scan.1.len() == 1 {
        lemma_narrower_well_formed(scan.0, hs);
        lemma_settle_pairing_narrower(scan.0, scan.1[0]);
        lemma_narrower_trans(settle_pairing(scan.0, scan.1[0]), scan.0, hs);
    }
}

/// One step of the ordered scan on the houses themselves.
fn ordered_step(houses: &mut Vec<House>, index: usize, trait_left: Trait, trait_right: Trait)
    -> (found: bool)
    requires
        index + 1 < old(houses)@.len(),
    ensures
        final(houses)@.len() == old(houses)@.len(),
        lists(final(houses)@) == ordered_turn(lists(old(houses)@), trait_left, trait_right, index as int).0,
        found == (ordered_turn(lists(old(houses)@), trait_left, trait_right, index as int).1.len() == 1),
{
    let ghost s = lists(houses@);
    let n = houses.len();
    let right = index + 1;
    let trait_left_contains = contains(&houses[index], &trait_left);
    let trait_right_contains = contains(&houses[right], &trait_right);
    if trait_left_contains && trait_right_contains {
        true
    } else {
        // The pairing is impossible here.
        if trait_left_contains {
            delete_trait(&mut houses[index], trait_left);
        } else {
            proof { lemma_strike_absent(s[index as int], trait_left); }
        }
        if trait_right_contains {
            delete_trait(&mut houses[right], trait_right);
        } else {
            proof { lemma_strike_absent(s[index + 1], trait_right); }
        }
        assert(lists(houses@) =~= ordered_turn(s, trait_left, trait_right, index as int).0);
        false
    }
}

/// One step of the adjacent scan on the houses themselves; the pairings
/// found are appended to `found`.
fn adjacent_step(
    houses: &mut Vec<House>,
    index: usize,
    trait_1: Trait,
    trait_2: Trait,
    found: &mut Vec<(usize, usize, Trait, Trait)>,
)
    requires
        index < old(houses)@.len(),
    ensures
        final(houses)@.len() == old(houses)@.len(),
        lists(final(houses)@) == adjacent_turn(lists(old(houses)@), trait_1, trait_2, index as int).0,
        pairings(final(found)@) == pairings(old(found)@) + adjacent_turn(
            lists(old(houses)@),
            trait_1,
            trait_2,
            index as int,
        ).1,
{
    let ghost s = lists(houses@);
    let ghost f0 = found@;
    let n = houses.len();
    let trait_1_contains = contains(&houses[index], &trait_1);
    let trait_2_contains = contains(&houses[index], &trait_2);

    if trait_1_contains {
        // Does the house to the left exist and may it hold trait_2?
        let first_trait_left_possible = if index > 0 {
            contains(&houses[index - 1], &trait_2)
        } else {
            false
        };
        // Does the house to the right exist and may it hold trait_2?
        let first_trait_right_possible = if index < n - 1 {
            contains(&houses[index + 1], &trait_2)
        } else {
            false
        };
        // No neighbour may hold trait_2: this house cannot hold trait_1.
        if !first_trait_left_possible && !first_trait_right_possible {
            delete_trait(&mut houses[index], trait_1);
        }
        if first_trait_left_possible {
            found.push((index - 1, index, trait_2, trait_1));
        }
        if first_trait_right_possible {
            found.push((index, index + 1, trait_1, trait_2));
        }
    } else {
        proof { lemma_strike_absent(s[index as int], trait_1); }
    }
    let ghost s1 = lists(houses@);
    proof { lemma_strike_has(s[index as int], trait_1, trait_2); }

    if trait_2_contains {
        // Does the house to the left exist and may it hold trait_1?
        let second_trait_left_possible = if index > 0 {
            contains(&houses[index - 1], &trait_1)
        } else {
            false
        };
        // Does the house to the right exist and may it hold trait_1?
        let second_trait_right_possible = if index < n - 1 {
            contains(&houses[index + 1], &trait_1)
        } else {
            false
        };
        // No neighbour may hold trait_1: this house cannot hold trait_2.
        if !second_trait_left_possible && !second_trait_right_possible {
            delete_trait(&mut houses[index], trait_2);
        }
    } else {
        proof { lemma_strike_absent(s1[index as int], trait_2); }
    }
    let ghost turn = adjacent_turn(s, trait_1, trait_2, index as int);
    assert(lists(houses@) =~= turn.0);
    assert(pairings(found@) =~= pairings(f0) + turn.1);
}

/// Check a location constraint: the house of `trait_1` must stand next to,
/// directly left of, or directly right of the house of `trait_2`.
///
/// Houses are scanned from left to right and every trait that cannot be part
/// of a fitting pair of neighbours is struck. When exactly one pairing of
/// neighbours remains, all other occurrences of its two traits are struck
/// from every house, its two houses keep only them, and the constraint is
/// settled (`true`).
pub fn check_location_constraint(houses: &mut Vec<House>, constraint: LocationConstraint) -> (settled: bool)
    requires
        constraint.location != Location::NextTo ==> old(houses)@.len() >= 1,
    ensures
        settled == location_settles(lists(old(houses)@), constraint),
        lists(final(houses)@) == location_outcome(lists(old(houses)@), constraint),
{
    let ghost h0 = lists(houses@);
    // Pairs of neighbours that may fit: (index_left, index_right, trait_left, trait_right).
    let mut fulfilled_constraints: Vec<(usize, usize, Trait, Trait)> = Vec::new();
    let trait_1 = constraint.trait_1;
    let trait_2 = constraint.trait_2;
    let n = houses.len();

    if constraint.location != Location::NextTo {
        // Left or right: one trait must stand directly left of the other.
        let trait_left: Trait;
        let trait_right: Trait;
        if constraint.location == Location::Left {
            trait_left = trait_1;
            trait_right = trait_2;
        } else {
            trait_left = trait_2;
            trait_right = trait_1;
        }
        for index in 0..n - 1
            invariant
                n == houses@.len(),
                n >= 1,
                h0.len() == n,
                lists(houses@) == ordered_scan(h0, trait_left, trait_right, index as nat).0,
                pairings(fulfilled_constraints@) == ordered_scan(h0, trait_left, trait_right, index as nat).1,
        {
            let ghost f0 = fulfilled_constraints@;
            if ordered_step(houses, index, trait_left, trait_right) {
                fulfilled_constraints.push((index, index + 1, trait_left, trait_right));
            }
            assert(pairings(fulfilled_constraints@) =~= ordered_scan(h0, trait_left, trait_right, (index + 1) as nat).1);
        }
    } else {
        // Next to each other: either side will do.
        for index in 0..n
            invariant
                n == houses@.len(),
                h0.len() == n,
                lists(houses@) == adjacent_scan(h0, trait_1, trait_2, index as nat).0,
                pairings(fulfilled_constraints@) == adjacent_scan(h0, trait_1, trait_2, index as nat).1,
        {
            adjacent_step(houses, index, trait_1, trait_2, &mut fulfilled_constraints);
        }
    }

    let ghost scan = location_scan(h0, constraint);
    proof { lemma_location_scan(h0, constraint); }
    assert(lists(houses@) == scan.0);
    assert(pairings(fulfilled_constraints@) == scan.1);

    if fulfilled_constraints.len() == 1 {
        // Only one pairing is left: its traits cannot stand anywhere else.
        let tuple = fulfilled_constraints[0];
        assert(scan.1[0] == (tuple.0 as int, tuple.1 as int, tuple.2, tuple.3));
        assert(neighbours(scan.1[0], n as int));
        let ghost (a, b) = (tuple.0 as int, tuple.1 as int);
        assert(sweep(scan.0, a, b, tuple.2, tuple.3, 0) =~= scan.0);
        // We now delete all other occurrences of both traits.
        for index in 0..n
            invariant
                n == houses@.len(),
                scan.0.len() == n,
                a == tuple.0,
                b == tuple.1,
                lists(houses@) == sweep(scan.0, a, b, tuple.2, tuple.3, index as int),
        {
            let ghost pre = lists(houses@);
            if index != tuple.0 {
                delete_trait(&mut houses[index], tuple.2);
            }
            if index != tuple.1 {
                delete_trait(&mut houses[index], tuple.3);
            }
            let ghost post = sweep(scan.0, a, b, tuple.2, tuple.3, index + 1);
            assert forall|i: int| 0 <= i < n implies #[trigger] lists(houses@)[i] == post[i] by {
                assert(pre[i] == sweep(scan.0, a, b, tuple.2, tuple.3, index as int)[i]);
            }
            assert(lists(houses@) =~= post);
        }
        delete_all_except(&mut houses[tuple.0], tuple.2);
        delete_all_except(&mut houses[tuple.1], tuple.3);
        assert(lists(houses@) =~= settle_pairing(scan.0, scan.1[0]));
        true
    } else {
        false
    }
}

} // verus!

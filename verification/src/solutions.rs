use vstd::prelude::*;
use crate::types::{Brand, Color, Constraint, Drink, Location, Nationality, Pet, Trait};
use crate::puzzle::{all_brands, all_colors, all_drinks, all_nationalities, all_pets, fresh_house, starting_street};
use crate::model::{
    allows, category, lemma_only_contains, lemma_without_contains, narrow, strike, HouseLists, Street,
};
use crate::direct::{direct_outcome, direct_settles, fits, sole_fit};
use crate::location::{
    adjacent_scan, adjacent_turn, lemma_adjacent_scan_narrower, lemma_location_scan,
    lemma_ordered_scan_narrower, location_outcome, location_scan, neighbours, ordered_scan, ordered_turn,
    settle_pairing, sweep, Pairing,
};
use crate::types::LocationConstraint;
use crate::narrowing::{lemma_narrower_well_formed, well_formed};
use crate::cleanup::{cleanup_turn, cleanup_upto, lemma_cleanup_upto_narrower, settled_in, settled_values, strike_all};
use crate::solver::{
    all_applicable, applicable, check_outcome, check_upto, lemma_check_upto_narrower, lemma_round_narrower, lemma_select_applicable,
    play, round, select,
};

verus! {

/// A full answer to the puzzle: for every house, one value per category
/// (color, nationality, brand, drink, pet, number).
pub type Assignment = Seq<Seq<Trait>>;

/// The answer is a proper one for `n` houses: every house has one value of
/// the right category in each, and no value is given to two houses.
pub open spec fn valid_assignment(sol: Assignment, n: int) -> bool {
    &&& sol.len() == n
    &&& forall|i: int| 0 <= i < n ==> (#[trigger] sol[i]).len() == 6
    &&& forall|i: int, k: int| 0 <= i < n && 0 <= k < 6 ==> category(#[trigger] sol[i][k]) == k
    &&& forall|i: int, j: int, k: int|
        0 <= i < n && 0 <= j < n && i != j && 0 <= k < 6 ==> #[trigger] sol[i][k] != #[trigger] sol[j][k]
}

/// In the answer, house `i` has the trait `t`.
pub open spec fn lives(sol: Assignment, i: int, t: Trait) -> bool {
    sol[i][category(t)] == t
}

/// The house still allows every value the answer gives it.
pub open spec fn house_admits(h: HouseLists, a: Seq<Trait>) -> bool {
    forall|k: int| 0 <= k < 6 ==> (#[trigger] h[k]).contains(a[k])
}

/// The street still allows the answer.
pub open spec fn admits(hs: Street, sol: Assignment) -> bool {
    &&& sol.len() == hs.len()
    &&& forall|i: int| 0 <= i < hs.len() ==> house_admits(#[trigger] hs[i], sol[i])
}

/// In the answer, house `i` has `a` and the house right of it has `b`.
pub open spec fn pair_at(sol: Assignment, i: int, a: Trait, b: Trait) -> bool {
    0 <= i && i + 1 < sol.len() && lives(sol, i, a) && lives(sol, i + 1, b)
}

/// The answer meets the constraint.
pub open spec fn satisfies(sol: Assignment, c: Constraint) -> bool {
    match c {
        Constraint::DirectConstraint(d) => exists|i: int|
            0 <= i < sol.len() && #[trigger] lives(sol, i, d.trait_1) && lives(sol, i, d.trait_2),
        Constraint::LocationConstraint(l) => match l.location {
            Location::Left => exists|i: int| #[trigger] pair_at(sol, i, l.trait_1, l.trait_2),
            Location::Right => exists|i: int| #[trigger] pair_at(sol, i, l.trait_2, l.trait_1),
            Location::NextTo => exists|i: int|
                #[trigger] pair_at(sol, i, l.trait_1, l.trait_2) || pair_at(sol, i, l.trait_2, l.trait_1),
        },
    }
}

/// The answer meets every constraint of the list.
pub open spec fn satisfies_all(sol: Assignment, cs: Seq<Constraint>) -> bool {
    forall|i: int| 0 <= i < cs.len() ==> satisfies(sol, #[trigger] cs[i])
}

/// A house that admits the answer allows the traits the answer gives it.
pub proof fn lemma_lives_allows(hs: Street, sol: Assignment, i: int, t: Trait)
    requires
        admits(hs, sol),
        0 <= i < hs.len(),
        lives(sol, i, t),
    ensures
        allows(hs[i], t),
{
    assert(house_admits(hs[i], sol[i]));
    assert(hs[i][category(t)].contains(sol[i][category(t)]));
}

/// In a proper answer, a trait lives in at most one house.
pub proof fn lemma_lives_unique(sol: Assignment, i: int, j: int, t: Trait)
    requires
        valid_assignment(sol, sol.len() as int),
        0 <= i < sol.len(),
        0 <= j < sol.len(),
        lives(sol, i, t),
        lives(sol, j, t),
    ensures
        i == j,
{
    if i != j {
        assert(sol[i][category(t)] != sol[j][category(t)]);
    }
}

/// Striking from a house a trait the answer does not give it keeps the
/// answer allowed.
pub proof fn lemma_strike_admits(h: HouseLists, a: Seq<Trait>, t: Trait)
    requires
        h.len() == 6,
        house_admits(h, a),
        a[category(t)] != t,
    ensures
        house_admits(strike(h, t), a),
{
    assert forall|k: int| 0 <= k < 6 implies (#[trigger] strike(h, t)[k]).contains(a[k]) by {
        if k == category(t) {
            lemma_without_contains(h[k], t, a[k]);
        }
    }
}

/// Narrowing a house to a trait the answer gives it keeps the answer allowed.
pub proof fn lemma_narrow_admits(h: HouseLists, a: Seq<Trait>, t: Trait)
    requires
        h.len() == 6,
        house_admits(h, a),
        a[category(t)] == t,
    ensures
        house_admits(narrow(h, t), a),
{
    assert forall|k: int| 0 <= k < 6 implies (#[trigger] narrow(h, t)[k]).contains(a[k]) by {
        if k == category(t) {
            lemma_only_contains(h[k], t, a[k]);
        }
    }
}

/// Striking a value from house `i` keeps the answer allowed when the answer
/// does not give that value to house `i`.
pub proof fn lemma_strike_at_admits(hs: Street, sol: Assignment, i: int, t: Trait)
    requires
        admits(hs, sol),
        0 <= i < hs.len(),
        hs[i].len() == 6,
        !lives(sol, i, t),
    ensures
        admits(hs.update(i, strike(hs[i], t)), sol),
{
    assert(house_admits(hs[i], sol[i]));
    lemma_strike_admits(hs[i], sol[i], t);
    let u = hs.update(i, strike(hs[i], t));
    assert forall|j: int| 0 <= j < hs.len() implies house_admits(#[trigger] u[j], sol[j]) by {
        if j != i {
            assert(house_admits(hs[j], sol[j]));
        }
    }
}

/// Checking a direct constraint never rules out an answer that meets it.
pub proof fn lemma_direct_keeps(hs: Street, sol: Assignment, t1: Trait, t2: Trait)
    requires
        well_formed(hs),
        valid_assignment(sol, hs.len() as int),
        admits(hs, sol),
        exists|i: int| 0 <= i < sol.len() && #[trigger] lives(sol, i, t1) && lives(sol, i, t2),
    ensures
        admits(direct_outcome(hs, t1, t2), sol),
{
    let w = choose|i: int| 0 <= i < sol.len() && #[trigger] lives(sol, i, t1) && lives(sol, i, t2);
    lemma_lives_allows(hs, sol, w, t1);
    lemma_lives_allows(hs, sol, w, t2);
    assert(fits(hs[w], t1, t2));
    let out = direct_outcome(hs, t1, t2);
    assert forall|i: int| 0 <= i < hs.len() implies house_admits(#[trigger] out[i], sol[i]) by {
        let h = hs[i];
        assert(house_admits(h, sol[i]));
        assert(h.len() == 6);
        if fits(h, t1, t2) && direct_settles(hs, t1, t2) {
            let j = choose|j: int| sole_fit(hs, t1, t2, j);
            assert(i == j && w == j);
            lemma_narrow_admits(h, sol[i], t1);
            lemma_narrow_admits(narrow(h, t1), sol[i], t2);
        } else if !fits(h, t1, t2) {
            assert(i != w);
            if lives(sol, i, t1) {
                lemma_lives_unique(sol, i, w, t1);
            }
            if lives(sol, i, t2) {
                lemma_lives_unique(sol, i, w, t2);
            }
            lemma_strike_admits(h, sol[i], t1);
            lemma_strike_admits(strike(h, t1), sol[i], t2);
        }
    }
}

proof fn lemma_contains_add<A>(a: Seq<A>, b: Seq<A>, x: A)
    requires
        a.contains(x) || b.contains(x),
    ensures
        (a + b).contains(x),
{
    if a.contains(x) {
        let i = choose|i: int| 0 <= i < a.len() && a[i] == x;
        assert((a + b)[i] == x);
    } else {
        let i = choose|i: int| 0 <= i < b.len() && b[i] == x;
        assert((a + b)[a.len() + i] == x);
    }
}

/// The ordered scan never rules out an answer that meets the constraint, and
/// once past the answer's pair it has recorded that pair.
proof fn lemma_ordered_scan_keeps(hs: Street, sol: Assignment, tl: Trait, tr: Trait, w: int, k: nat)
    requires
        well_formed(hs),
        valid_assignment(sol, hs.len() as int),
        admits(hs, sol),
        0 <= w,
        w + 1 < hs.len(),
        lives(sol, w, tl),
        lives(sol, w + 1, tr),
        k < hs.len(),
    ensures
        admits(ordered_scan(hs, tl, tr, k).0, sol),
        w < k ==> ordered_scan(hs, tl, tr, k).1.contains((w, w + 1, tl, tr)),
    decreases k,
{
    if k > 0 {
        lemma_ordered_scan_keeps(hs, sol, tl, tr, w, (k - 1) as nat);
        let prev = ordered_scan(hs, tl, tr, (k - 1) as nat);
        let s = prev.0;
        let i = k - 1;
        lemma_ordered_scan_narrower(hs, tl, tr, (k - 1) as nat);
        lemma_narrower_well_formed(s, hs);
        let turn = ordered_turn(s, tl, tr, i);
        if allows(s[i], tl) && allows(s[i + 1], tr) {
            if w < i {
                lemma_contains_add(prev.1, turn.1, (w, w + 1, tl, tr));
            } else if w == i {
                assert(turn.1[0] == (w, w + 1, tl, tr));
                lemma_contains_add(prev.1, turn.1, (w, w + 1, tl, tr));
            }
        } else {
            if i == w {
                lemma_lives_allows(s, sol, w, tl);
                lemma_lives_allows(s, sol, w + 1, tr);
            }
            if lives(sol, i, tl) {
                lemma_lives_unique(sol, i, w, tl);
            }
            if lives(sol, i + 1, tr) {
                lemma_lives_unique(sol, i + 1, w + 1, tr);
            }
            lemma_strike_at_admits(s, sol, i, tl);
            let s1 = s.update(i, strike(s[i], tl));
            lemma_strike_at_admits(s1, sol, i + 1, tr);
            if w < i {
                lemma_contains_add(prev.1, turn.1, (w, w + 1, tl, tr));
            }
        }
    }
}

/// The pairing the answer uses for "`t1` next to `t2`", with `t1` at house `u`
/// and `t2` at house `v`.
pub open spec fn answer_pairing(u: int, v: int, t1: Trait, t2: Trait) -> Pairing {
    if v + 1 == u {
        (v, u, t2, t1)
    } else {
        (u, v, t1, t2)
    }
}

/// The adjacent scan never rules out an answer that meets the constraint,
/// and once past the answer's house of `t1` it has recorded the answer's pair.
proof fn lemma_adjacent_scan_keeps(
    hs: Street,
    sol: Assignment,
    t1: Trait,
    t2: Trait,
    u: int,
    v: int,
    k: nat,
)
    requires
        well_formed(hs),
        valid_assignment(sol, hs.len() as int),
        admits(hs, sol),
        0 <= u < hs.len(),
        0 <= v < hs.len(),
        u == v + 1 || v == u + 1,
        lives(sol, u, t1),
        lives(sol, v, t2),
        k <= hs.len(),
    ensures
        admits(adjacent_scan(hs, t1, t2, k).0, sol),
        u < k ==> adjacent_scan(hs, t1, t2, k).1.contains(answer_pairing(u, v, t1, t2)),
    decreases k,
{
    if k > 0 {
        lemma_adjacent_scan_keeps(hs, sol, t1, t2, u, v, (k - 1) as nat);
        let prev = adjacent_scan(hs, t1, t2, (k - 1) as nat);
        let s = prev.0;
        let i = k - 1;
        let n = hs.len();
        lemma_adjacent_scan_narrower(hs, t1, t2, (k - 1) as nat);
        lemma_narrower_well_formed(s, hs);
        let left_1 = i > 0 && allows(s[i - 1], t2);
        let right_1 = i + 1 < n && allows(s[i + 1], t2);
        let left_2 = i > 0 && allows(s[i - 1], t1);
        let right_2 = i + 1 < n && allows(s[i + 1], t1);
        let s1 = if left_1 || right_1 { s } else { s.update(i, strike(s[i], t1)) };
        lemma_lives_allows(s, sol, u, t1);
        lemma_lives_allows(s, sol, v, t2);
        if !(left_1 || right_1) {
            if lives(sol, i, t1) {
                lemma_lives_unique(sol, i, u, t1);
            }
            lemma_strike_at_admits(s, sol, i, t1);
        }
        assert(admits(s1, sol));
        assert(well_formed(s1));
        if !(left_2 || right_2) {
            if lives(sol, i, t2) {
                lemma_lives_unique(sol, i, v, t2);
            }
            lemma_strike_at_admits(s1, sol, i, t2);
        }
        let turn = adjacent_turn(s, t1, t2, i);
        let here = allows(s[i], t1);
        let found_left: Seq<Pairing> = if here && left_1 { seq![(i - 1, i, t2, t1)] } else { seq![] };
        let found_right: Seq<Pairing> = if here && right_1 { seq![(i, i + 1, t1, t2)] } else { seq![] };
        let e = answer_pairing(u, v, t1, t2);
        assert(turn.1 == found_left + found_right);
        assert(adjacent_scan(hs, t1, t2, k).1 =~= prev.1 + found_left + found_right);
        if u < i {
            lemma_contains_add(prev.1, found_left, e);
            lemma_contains_add(prev.1 + found_left, found_right, e);
        } else if u == i {
            if v + 1 == u {
                assert(found_left[0] == e);
                lemma_contains_add(prev.1, found_left, e);
                lemma_contains_add(prev.1 + found_left, found_right, e);
            } else {
                assert(found_right[0] == e);
                lemma_contains_add(prev.1 + found_left, found_right, e);
            }
        }
    }
}

/// Settling a pairing the answer uses never rules the answer out.
proof fn lemma_settle_keeps(s: Street, sol: Assignment, e: Pairing)
    requires
        well_formed(s),
        valid_assignment(sol, s.len() as int),
        admits(s, sol),
        neighbours(e, s.len() as int),
        lives(sol, e.0, e.2),
        lives(sol, e.1, e.3),
    ensures
        admits(settle_pairing(s, e), sol),
{
    let n = s.len();
    let t = sweep(s, e.0, e.1, e.2, e.3, n as int);
    assert forall|i: int| 0 <= i < n implies house_admits(#[trigger] t[i], sol[i]) by {
        let h = s[i];
        assert(house_admits(h, sol[i]));
        let h1 = if i != e.0 { strike(h, e.2) } else { h };
        if i != e.0 {
            if lives(sol, i, e.2) {
                lemma_lives_unique(sol, i, e.0, e.2);
            }
            lemma_strike_admits(h, sol[i], e.2);
        }
        if i != e.1 {
            if lives(sol, i, e.3) {
                lemma_lives_unique(sol, i, e.1, e.3);
            }
            lemma_strike_admits(h1, sol[i], e.3);
        }
    }
    let t1 = t.update(e.0, narrow(t[e.0], e.2));
    assert forall|i: int| 0 <= i < n implies house_admits(#[trigger] t1[i], sol[i]) by {
        assert(house_admits(t[i], sol[i]));
        if i == e.0 {
            lemma_narrow_admits(t[i], sol[i], e.2);
        }
    }
    let t2 = t1.update(e.1, narrow(t1[e.1], e.3));
    assert forall|i: int| 0 <= i < n implies house_admits(#[trigger] t2[i], sol[i]) by {
        assert(house_admits(t1[i], sol[i]));
        if i == e.1 {
            lemma_narrow_admits(t1[i], sol[i], e.3);
        }
    }
}

/// Checking a location constraint never rules out an answer that meets it.
pub proof fn lemma_location_keeps(hs: Street, sol: Assignment, c: LocationConstraint)
    requires
        well_formed(hs),
        valid_assignment(sol, hs.len() as int),
        admits(hs, sol),
        satisfies(sol, Constraint::LocationConstraint(c)),
    ensures
        admits(location_outcome(hs, c), sol),
{
    let n = hs.len();
    let scan = location_scan(hs, c);
    let e: Pairing;
    match c.location {
        Location::Left => {
            let w = choose|i: int| #[trigger] pair_at(sol, i, c.trait_1, c.trait_2);
            lemma_ordered_scan_keeps(hs, sol, c.trait_1, c.trait_2, w, (n - 1) as nat);
            lemma_ordered_scan_narrower(hs, c.trait_1, c.trait_2, (n - 1) as nat);
            e = (w, w + 1, c.trait_1, c.trait_2);
        },
        Location::Right => {
            let w = choose|i: int| #[trigger] pair_at(sol, i, c.trait_2, c.trait_1);
            lemma_ordered_scan_keeps(hs, sol, c.trait_2, c.trait_1, w, (n - 1) as nat);
            lemma_ordered_scan_narrower(hs, c.trait_2, c.trait_1, (n - 1) as nat);
            e = (w, w + 1, c.trait_2, c.trait_1);
        },
        Location::NextTo => {
            let w = choose|i: int|
                #[trigger] pair_at(sol, i, c.trait_1, c.trait_2) || pair_at(sol, i, c.trait_2, c.trait_1);
            let (u, v) = if pair_at(sol, w, c.trait_1, c.trait_2) {
                (w, w + 1)
            } else {
                (w + 1, w)
            };
            lemma_adjacent_scan_keeps(hs, sol, c.trait_1, c.trait_2, u, v, n);
            lemma_adjacent_scan_narrower(hs, c.trait_1, c.trait_2, n);
            e = answer_pairing(u, v, c.trait_1, c.trait_2);
        },
    }
    lemma_narrower_well_formed(scan.0, hs);
    assert(scan.1.contains(e));
    assert(lives(sol, e.0, e.2) && lives(sol, e.1, e.3));
    if scan.1.len() == 1 {
        lemma_location_scan(hs, c);
        assert(scan.1[0] == e);
        lemma_settle_keeps(scan.0, sol, e);
    }
}

/// Every value of `ts` is the one the answer gives house `a` in its category.
pub open spec fn all_given(a: Seq<Trait>, ts: Seq<Trait>) -> bool {
    forall|m: int| 0 <= m < ts.len() ==> a[category(#[trigger] ts[m])] == ts[m]
}

/// None of the values of `ts` is given to house `a` by the answer.
pub open spec fn none_given(a: Seq<Trait>, ts: Seq<Trait>) -> bool {
    forall|m: int| 0 <= m < ts.len() ==> a[category(#[trigger] ts[m])] != ts[m]
}

proof fn lemma_all_given_add(a: Seq<Trait>, x: Seq<Trait>, y: Seq<Trait>)
    requires
        all_given(a, x),
        all_given(a, y),
    ensures
        all_given(a, x + y),
{
    assert forall|m: int| 0 <= m < (x + y).len() implies a[category(#[trigger] (x + y)[m])] == (x + y)[m] by {
        if m < x.len() {
            assert((x + y)[m] == x[m]);
        } else {
            assert((x + y)[m] == y[m - x.len()]);
        }
    }
}

/// A value a house admitting the answer is settled on is the answer's value.
proof fn lemma_settled_given(h: HouseLists, a: Seq<Trait>)
    requires
        h.len() == 6,
        a.len() == 6,
        house_admits(h, a),
        forall|k: int| 0 <= k < 6 ==> category(#[trigger] a[k]) == k,
    ensures
        all_given(a, settled_values(h)),
{
    assert forall|k: int| 0 <= k < 5 implies all_given(a, #[trigger] settled_in(h, k)) by {
        if h[k].len() == 1 {
            assert(h[k].contains(a[k]));
            assert(h[k][0] == a[k]);
            assert(category(a[k]) == k);
        }
    }
    lemma_all_given_add(a, settled_in(h, 0), settled_in(h, 1));
    lemma_all_given_add(a, settled_in(h, 0) + settled_in(h, 1), settled_in(h, 2));
    lemma_all_given_add(a, settled_in(h, 0) + settled_in(h, 1) + settled_in(h, 2), settled_in(h, 3));
    lemma_all_given_add(
        a,
        settled_in(h, 0) + settled_in(h, 1) + settled_in(h, 2) + settled_in(h, 3),
        settled_in(h, 4),
    );
}

/// Striking values the answer does not give a house keeps the answer allowed.
proof fn lemma_strike_all_admits(h: HouseLists, a: Seq<Trait>, ts: Seq<Trait>)
    requires
        h.len() == 6,
        house_admits(h, a),
        none_given(a, ts),
    ensures
        house_admits(strike_all(h, ts), a),
        strike_all(h, ts).len() == 6,
    decreases ts.len(),
{
    if ts.len() > 0 {
        assert(none_given(a, ts.drop_last())) by {
            assert forall|m: int| 0 <= m < ts.drop_last().len() implies a[category(#[trigger] ts.drop_last()[m])] != ts.drop_last()[m] by {
                assert(ts.drop_last()[m] == ts[m]);
            }
        }
        lemma_strike_all_admits(h, a, ts.drop_last());
        assert(a[category(ts[ts.len() - 1])] != ts[ts.len() - 1]);
        lemma_strike_admits(strike_all(h, ts.drop_last()), a, ts.last());
    }
}

/// The cleanup never rules out a proper answer.
pub proof fn lemma_cleanup_keeps(hs: Street, sol: Assignment, k: nat)
    requires
        well_formed(hs),
        valid_assignment(sol, hs.len() as int),
        admits(hs, sol),
        k <= hs.len(),
    ensures
        admits(cleanup_upto(hs, k), sol),
    decreases k,
{
    if k > 0 {
        lemma_cleanup_keeps(hs, sol, (k - 1) as nat);
        let s = cleanup_upto(hs, (k - 1) as nat);
        lemma_cleanup_upto_narrower(hs, (k - 1) as nat);
        lemma_narrower_well_formed(s, hs);
        let i = k - 1;
        let values = settled_values(s[i]);
        assert(house_admits(s[i], sol[i]));
        lemma_settled_given(s[i], sol[i]);
        let out = cleanup_turn(s, i);
        assert forall|j: int| 0 <= j < s.len() implies house_admits(#[trigger] out[j], sol[j]) by {
            assert(house_admits(s[j], sol[j]));
            if j != i {
                assert forall|m: int| 0 <= m < values.len() implies sol[j][category(#[trigger] values[m])] != values[m] by {
                    let v = values[m];
                    assert(sol[i][category(v)] == v);
                    if sol[j][category(v)] == v {
                        lemma_lives_unique(sol, j, i, v);
                    }
                }
                lemma_strike_all_admits(s[j], sol[j], values);
            }
        }
    }
}

/// Checking a constraint the answer meets never rules the answer out.
pub proof fn lemma_check_keeps(hs: Street, sol: Assignment, c: Constraint)
    requires
        well_formed(hs),
        valid_assignment(sol, hs.len() as int),
        admits(hs, sol),
        applicable(c, hs.len() as int),
        satisfies(sol, c),
    ensures
        admits(check_outcome(hs, c).0, sol),
{
    match c {
        Constraint::DirectConstraint(d) => lemma_direct_keeps(hs, sol, d.trait_1, d.trait_2),
        Constraint::LocationConstraint(l) => lemma_location_keeps(hs, sol, l),
    }
}

/// Checking constraints the answer meets never rules the answer out.
proof fn lemma_check_upto_keeps(hs: Street, sol: Assignment, cs: Seq<Constraint>, k: nat)
    requires
        well_formed(hs),
        valid_assignment(sol, hs.len() as int),
        admits(hs, sol),
        all_applicable(cs, hs.len() as int),
        satisfies_all(sol, cs),
        k <= cs.len(),
    ensures
        admits(check_upto(hs, cs, k).0, sol),
    decreases k,
{
    if k > 0 {
        lemma_check_upto_keeps(hs, sol, cs, (k - 1) as nat);
        let s = check_upto(hs, cs, (k - 1) as nat).0;
        lemma_check_upto_narrower(hs, cs, (k - 1) as nat);
        lemma_narrower_well_formed(s, hs);
        assert(applicable(cs[k - 1], hs.len() as int));
        assert(satisfies(sol, cs[k - 1]));
        lemma_check_keeps(s, sol, cs[k - 1]);
    }
}

/// The constraints kept or dropped are all met by an answer that meets all.
proof fn lemma_select_satisfied(sol: Assignment, cs: Seq<Constraint>, settled: Seq<bool>, keep: bool)
    requires
        satisfies_all(sol, cs),
    ensures
        satisfies_all(sol, select(cs, settled, keep)),
    decreases cs.len(),
{
    if cs.len() > 0 {
        assert(satisfies_all(sol, cs.drop_last())) by {
            assert forall|i: int| 0 <= i < cs.drop_last().len() implies satisfies(sol, #[trigger] cs.drop_last()[i]) by {
                assert(satisfies(sol, cs[i]));
            }
        }
        lemma_select_satisfied(sol, cs.drop_last(), settled.drop_last(), keep);
        assert(satisfies(sol, cs[cs.len() - 1]));
    }
}

/// A round never rules out a proper answer that meets every open constraint.
pub proof fn lemma_round_keeps(cs: Seq<Constraint>, hs: Street, sol: Assignment)
    requires
        well_formed(hs),
        valid_assignment(sol, hs.len() as int),
        admits(hs, sol),
        all_applicable(cs, hs.len() as int),
        satisfies_all(sol, cs),
    ensures
        admits(round(cs, hs).1, sol),
        satisfies_all(sol, round(cs, hs).0),
        all_applicable(round(cs, hs).0, hs.len() as int),
        well_formed(round(cs, hs).1),
        round(cs, hs).1.len() == hs.len(),
{
    let checked = check_upto(hs, cs, cs.len());
    lemma_check_upto_keeps(hs, sol, cs, cs.len());
    lemma_check_upto_narrower(hs, cs, cs.len());
    lemma_narrower_well_formed(checked.0, hs);
    lemma_cleanup_keeps(checked.0, sol, checked.0.len());
    lemma_select_satisfied(sol, cs, checked.1, false);
    lemma_select_applicable(cs, checked.1, false, hs.len() as int);
    lemma_round_narrower(cs, hs);
    lemma_narrower_well_formed(round(cs, hs).1, hs);
}

/// Any number of rounds never rules out a proper answer that meets every
/// constraint.
pub proof fn lemma_play_keeps(cs: Seq<Constraint>, hs: Street, sol: Assignment, k: nat)
    requires
        well_formed(hs),
        valid_assignment(sol, hs.len() as int),
        admits(hs, sol),
        all_applicable(cs, hs.len() as int),
        satisfies_all(sol, cs),
    ensures
        admits(play(cs, hs, k).1, sol),
        satisfies_all(sol, play(cs, hs, k).0),
        all_applicable(play(cs, hs, k).0, hs.len() as int),
        well_formed(play(cs, hs, k).1),
        play(cs, hs, k).1.len() == hs.len(),
    decreases k,
{
    if k > 0 {
        lemma_play_keeps(cs, hs, sol, (k - 1) as nat);
        let prev = play(cs, hs, (k - 1) as nat);
        lemma_round_keeps(prev.0, prev.1, sol);
    }
}

/// Every value of a category is among the values a fresh house lists for it.
proof fn lemma_fresh_lists_all(x: Trait)
    ensures
        category(x) == 0 ==> all_colors().contains(x),
        category(x) == 1 ==> all_nationalities().contains(x),
        category(x) == 2 ==> all_brands().contains(x),
        category(x) == 3 ==> all_drinks().contains(x),
        category(x) == 4 ==> all_pets().contains(x),
{
    match x {
        Trait::Color(c) => {
            let i: int = match c {
                Color::Blue => 0,
                Color::Green => 1,
                Color::Red => 2,
                Color::White => 3,
                Color::Yellow => 4,
            };
            assert(all_colors()[i] == x);
        },
        Trait::Nationality(c) => {
            let i: int = match c {
                Nationality::British => 0,
                Nationality::Danish => 1,
                Nationality::German => 2,
                Nationality::Norwegian => 3,
                Nationality::Swedish => 4,
            };
            assert(all_nationalities()[i] == x);
        },
        Trait::Brand(c) => {
            let i: int = match c {
                Brand::Dunhill => 0,
                Brand::Marlboro => 1,
                Brand::PallMall => 2,
                Brand::Rothmanns => 3,
                Brand::Winfield => 4,
            };
            assert(all_brands()[i] == x);
        },
        Trait::Drink(c) => {
            let i: int = match c {
                Drink::Beer => 0,
                Drink::Coffee => 1,
                Drink::Milk => 2,
                Drink::Tea => 3,
                Drink::Water => 4,
            };
            assert(all_drinks()[i] == x);
        },
        Trait::Pet(c) => {
            let i: int = match c {
                Pet::Bird => 0,
                Pet::Cat => 1,
                Pet::Dog => 2,
                Pet::Fish => 3,
                Pet::Horse => 4,
            };
            assert(all_pets()[i] == x);
        },
        Trait::Number(_) => {},
    }
}

/// The answer numbers the houses 1 to 5 from left to right.
pub open spec fn numbered_in_order(sol: Assignment) -> bool {
    forall|i: int| 0 <= i < sol.len() ==> #[trigger] sol[i][5] == Trait::Number((i + 1) as i32)
}

/// The starting street allows every proper answer that numbers the houses
/// from left to right.
pub proof fn lemma_start_admits(sol: Assignment)
    requires
        valid_assignment(sol, 5),
        numbered_in_order(sol),
    ensures
        admits(starting_street(), sol),
{
    let hs = starting_street();
    assert forall|i: int| 0 <= i < 5 implies house_admits(#[trigger] hs[i], sol[i]) by {
        let h = fresh_house(i + 1);
        assert(hs[i] == h);
        assert forall|k: int| 0 <= k < 6 implies (#[trigger] h[k]).contains(sol[i][k]) by {
            let x = sol[i][k];
            assert(category(x) == k);
            lemma_fresh_lists_all(x);
            if k == 5 {
                assert(sol[i][5] == Trait::Number((i + 1) as i32));
                assert(h[5][0] == x);
            }
        }
    }
}

} // verus!

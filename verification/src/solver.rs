use vstd::prelude::*;
use crate::types::{Constraint, House, Location};
use crate::model::{lists, Street};
use crate::direct::{check_direct_constraint, direct_outcome, direct_settles};
use crate::location::{check_location_constraint, lemma_location_scan, location_outcome, location_settles};
use crate::cleanup::{cleanup, cleaned, lemma_cleanup_upto_narrower};
use crate::direct::lemma_direct_outcome_narrower;
use crate::location::lemma_location_outcome_narrower;
use crate::narrowing::{
    lemma_narrower_refl, lemma_narrower_trans, lemma_narrower_well_formed, lemma_street_size, narrower,
    street_size, well_formed,
};
use crate::types::Trait;

verus! {

/// The constraint can be checked on a street of `n` houses: a left/right
/// constraint needs at least one house.
pub open spec fn applicable(c: Constraint, n: int) -> bool {
    match c {
        Constraint::DirectConstraint(_) => true,
        Constraint::LocationConstraint(l) => l.location != Location::NextTo ==> n >= 1,
    }
}

/// Every constraint of the list can be checked on a street of `n` houses.
pub open spec fn all_applicable(cs: Seq<Constraint>, n: int) -> bool {
    forall|i: int| 0 <= i < cs.len() ==> applicable(#[trigger] cs[i], n)
}

/// The street after checking one constraint, and whether it is settled.
pub open spec fn check_outcome(hs: Street, c: Constraint) -> (Street, bool) {
    match c {
        Constraint::DirectConstraint(d) => (
            direct_outcome(hs, d.trait_1, d.trait_2),
            direct_settles(hs, d.trait_1, d.trait_2),
        ),
        Constraint::LocationConstraint(l) => (location_outcome(hs, l), location_settles(hs, l)),
    }
}

/// The street after checking the first `k` constraints in order, with
/// whether each of them was settled.
pub open spec fn check_upto(hs: Street, cs: Seq<Constraint>, k: nat) -> (Street, Seq<bool>)
    decreases k,
{
    if k == 0 {
        (hs, seq![])
    } else {
        let prev = check_upto(hs, cs, (k - 1) as nat);
        let r = check_outcome(prev.0, cs[k - 1]);
        (r.0, prev.1.push(r.1))
    }
}

/// The constraints whose flag is `keep`, in order.
pub open spec fn select(cs: Seq<Constraint>, settled: Seq<bool>, keep: bool) -> Seq<Constraint>
    decreases cs.len(),
{
    if cs.len() == 0 {
        seq![]
    } else {
        let rest = select(cs.drop_last(), settled.drop_last(), keep);
        if settled.last() == keep {
            rest.push(cs.last())
        } else {
            rest
        }
    }
}

/// One round of the solver: every constraint is checked in order, the
/// settled ones are dropped, and the street is cleaned up. The result is the
/// constraints still open, the street, and the constraints settled this round.
pub open spec fn round(cs: Seq<Constraint>, hs: Street) -> (Seq<Constraint>, Street, Seq<Constraint>) {
    let checked = check_upto(hs, cs, cs.len());
    (select(cs, checked.1, false), cleaned(checked.0), select(cs, checked.1, true))
}

/// Checking a constraint keeps the number of houses.
pub proof fn lemma_check_outcome_len(hs: Street, c: Constraint)
    requires
        applicable(c, hs.len() as int),
    ensures
        check_outcome(hs, c).0.len() == hs.len(),
{
    if let Constraint::LocationConstraint(l) = c {
        lemma_location_scan(hs, l);
    }
}

/// Checking constraints keeps the number of houses and yields one flag each.
pub proof fn lemma_check_upto_len(hs: Street, cs: Seq<Constraint>, k: nat)
    requires
        k <= cs.len(),
        all_applicable(cs, hs.len() as int),
    ensures
        check_upto(hs, cs, k).0.len() == hs.len(),
        check_upto(hs, cs, k).1.len() == k,
    decreases k,
{
    if k > 0 {
        lemma_check_upto_len(hs, cs, (k - 1) as nat);
        lemma_check_outcome_len(check_upto(hs, cs, (k - 1) as nat).0, cs[k - 1]);
    }
}

/// Checking a constraint only strikes values.
pub proof fn lemma_check_outcome_narrower(hs: Street, c: Constraint)
    requires
        well_formed(hs),
        applicable(c, hs.len() as int),
    ensures
        narrower(check_outcome(hs, c).0, hs),
{
    match c {
        Constraint::DirectConstraint(d) => lemma_direct_outcome_narrower(hs, d.trait_1, d.trait_2),
        Constraint::LocationConstraint(l) => lemma_location_outcome_narrower(hs, l),
    }
}

/// Checking constraints in turn only strikes values.
pub proof fn lemma_check_upto_narrower(hs: Street, cs: Seq<Constraint>, k: nat)
    requires
        well_formed(hs),
        k <= cs.len(),
        all_applicable(cs, hs.len() as int),
    ensures
        narrower(check_upto(hs, cs, k).0, hs),
    decreases k,
{
    if k == 0 {
        lemma_narrower_refl(hs);
    } else {
        lemma_check_upto_narrower(hs, cs, (k - 1) as nat);
        let prev = check_upto(hs, cs, (k - 1) as nat).0;
        lemma_narrower_well_formed(prev, hs);
        lemma_check_outcome_narrower(prev, cs[k - 1]);
        lemma_narrower_trans(check_upto(hs, cs, k).0, prev, hs);
    }
}

/// A round only strikes values.
pub proof fn lemma_round_narrower(cs: Seq<Constraint>, hs: Street)
    requires
        well_formed(hs),
        all_applicable(cs, hs.len() as int),
    ensures
        narrower(round(cs, hs).1, hs),
{
    let checked = check_upto(hs, cs, cs.len()).0;
    lemma_check_upto_narrower(hs, cs, cs.len());
    lemma_narrower_well_formed(checked, hs);
    lemma_cleanup_upto_narrower(checked, checked.len());
    lemma_narrower_trans(cleaned(checked), checked, hs);
}

/// What is kept and what is dropped make up the whole list; nothing is
/// dropped exactly when everything is kept.
pub proof fn lemma_select_len(cs: Seq<Constraint>, settled: Seq<bool>)
    requires
        settled.len() == cs.len(),
    ensures
        select(cs, settled, false).len() + select(cs, settled, true).len() == cs.len(),
        select(cs, settled, false).len() == cs.len() ==> select(cs, settled, false) == cs,
    decreases cs.len(),
{
    if cs.len() > 0 {
        lemma_select_len(cs.drop_last(), settled.drop_last());
        if select(cs, settled, false).len() == cs.len() {
            assert(cs.drop_last().push(cs.last()) =~= cs);
        }
    }
}

/// The constraints kept or dropped can be checked wherever all could.
pub proof fn lemma_select_applicable(cs: Seq<Constraint>, settled: Seq<bool>, keep: bool, n: int)
    requires
        all_applicable(cs, n),
    ensures
        all_applicable(select(cs, settled, keep), n),
    decreases cs.len(),
{
    if cs.len() > 0 {
        assert(all_applicable(cs.drop_last(), n)) by {
            assert forall|i: int| 0 <= i < cs.drop_last().len() implies applicable(#[trigger] cs.drop_last()[i], n) by {
                assert(applicable(cs[i], n));
            }
        }
        lemma_select_applicable(cs.drop_last(), settled.drop_last(), keep, n);
        assert(applicable(cs[cs.len() - 1], n));
    }
}

/// The flag of a constraint, once set, stays as later constraints are checked.
pub proof fn lemma_check_upto_flag(hs: Street, cs: Seq<Constraint>, k: nat, m: nat)
    requires
        k < m <= cs.len(),
        all_applicable(cs, hs.len() as int),
    ensures
        check_upto(hs, cs, m).1[k as int] == check_upto(hs, cs, k + 1).1[k as int],
    decreases m,
{
    if m > k + 1 {
        lemma_check_upto_flag(hs, cs, k, (m - 1) as nat);
        lemma_check_upto_len(hs, cs, (m - 1) as nat);
    } else {
        lemma_check_upto_len(hs, cs, k);
    }
}

/// What is kept holds every constraint flagged `keep`, and only those.
pub proof fn lemma_select_contains(cs: Seq<Constraint>, settled: Seq<bool>, keep: bool)
    requires
        settled.len() == cs.len(),
    ensures
        forall|k: int| 0 <= k < cs.len() && settled[k] == keep ==> #[trigger] select(cs, settled, keep).contains(cs[k]),
        forall|j: int|
            0 <= j < select(cs, settled, keep).len() ==> exists|k: int|
                0 <= k < cs.len() && settled[k] == keep && #[trigger] cs[k] == #[trigger] select(cs, settled, keep)[j],
    decreases cs.len(),
{
    if cs.len() > 0 {
        let rest = select(cs.drop_last(), settled.drop_last(), keep);
        lemma_select_contains(cs.drop_last(), settled.drop_last(), keep);
        let out = select(cs, settled, keep);
        let last = cs.len() - 1;
        assert forall|k: int| 0 <= k < cs.len() && settled[k] == keep implies #[trigger] out.contains(cs[k]) by {
            if k < last {
                assert(cs.drop_last()[k] == cs[k]);
                assert(settled.drop_last()[k] == settled[k]);
                assert(rest.contains(cs[k]));
                let j = choose|j: int| 0 <= j < rest.len() && rest[j] == cs[k];
                assert(out[j] == cs[k]);
            } else {
                assert(out[out.len() - 1] == cs[k]);
            }
        }
        assert forall|j: int| 0 <= j < out.len() implies exists|k: int|
            0 <= k < cs.len() && settled[k] == keep && #[trigger] cs[k] == #[trigger] out[j] by {
            if j < rest.len() {
                assert(out[j] == rest[j]);
                let k = choose|k: int|
                    0 <= k < cs.drop_last().len() && settled.drop_last()[k] == keep && #[trigger] cs.drop_last()[k]
                        == #[trigger] rest[j];
                assert(cs[k] == out[j] && settled[k] == keep);
            } else {
                assert(cs[last] == out[j] && settled[last] == keep);
            }
        }
    }
}

/// The open constraints and the street after `k` rounds.
pub open spec fn play(cs: Seq<Constraint>, hs: Street, k: nat) -> (Seq<Constraint>, Street)
    decreases k,
{
    if k == 0 {
        (cs, hs)
    } else {
        let prev = play(cs, hs, (k - 1) as nat);
        let r = round(prev.0, prev.1);
        (r.0, r.1)
    }
}

/// The constraints settled in round `k` (counting from 0).
pub open spec fn settled_in_round(cs: Seq<Constraint>, hs: Street, k: nat) -> Seq<Constraint> {
    let before = play(cs, hs, k);
    round(before.0, before.1).2
}

/// A round on this state changes nothing and settles nothing: every later
/// round is the same, so playing on never settles the remaining constraints.
pub open spec fn stuck(cs: Seq<Constraint>, hs: Street) -> bool {
    round(cs, hs) == (cs, hs, Seq::<Constraint>::empty())
}

/// A copy of a list.
fn copy_list(v: &Vec<Trait>) -> (copy: Vec<Trait>)
    ensures
        copy@ == v@,
{
    let mut copy: Vec<Trait> = Vec::new();
    for i in 0..v.len()
        invariant
            copy@ == v@.take(i as int),
    {
        copy.push(v[i]);
        assert(copy@ =~= v@.take(i + 1));
    }
    assert(v@.take(v@.len() as int) =~= v@);
    copy
}

/// A copy of the houses.
fn copy_houses(houses: &Vec<House>) -> (copy: Vec<House>)
    ensures
        lists(copy@) == lists(houses@),
{
    let mut copy: Vec<House> = Vec::new();
    for i in 0..houses.len()
        invariant
            copy@.len() == i,
            forall|j: int| 0 <= j < i ==> #[trigger] copy@[j]@ == houses@[j]@,
    {
        let house = &houses[i];
        copy.push(House {
            color_vec: copy_list(&house.color_vec),
            nationality_vec: copy_list(&house.nationality_vec),
            brand_vec: copy_list(&house.brand_vec),
            drink_vec: copy_list(&house.drink_vec),
            pet_vec: copy_list(&house.pet_vec),
            number_vec: copy_list(&house.number_vec),
        });
        assert(copy@[i as int]@ =~= houses@[i as int]@);
    }
    assert(lists(copy@) =~= lists(houses@));
    copy
}

/// Whether two lists are equal.
fn same_list(a: &Vec<Trait>, b: &Vec<Trait>) -> (same: bool)
    ensures
        same == (a@ == b@),
{
    if a.len() != b.len() {
        return false;
    }
    for i in 0..a.len()
        invariant
            a@.len() == b@.len(),
            forall|j: int| 0 <= j < i ==> a@[j] == b@[j],
    {
        if a[i] != b[i] {
            return false;
        }
    }
    assert(a@ =~= b@);
    true
}

/// Whether two streets allow the same values everywhere.
fn same_street(a: &Vec<House>, b: &Vec<House>) -> (same: bool)
    ensures
        same == (lists(a@) == lists(b@)),
{
    if a.len() != b.len() {
        assert(lists(a@).len() != lists(b@).len());
        return false;
    }
    for i in 0..a.len()
        invariant
            a@.len() == b@.len(),
            forall|j: int| 0 <= j < i ==> #[trigger] a@[j]@ == b@[j]@,
    {
        let x = &a[i];
        let y = &b[i];
        let same_house = same_list(&x.color_vec, &y.color_vec) && same_list(&x.nationality_vec, &y.nationality_vec)
            && same_list(&x.brand_vec, &y.brand_vec) && same_list(&x.drink_vec, &y.drink_vec)
            && same_list(&x.pet_vec, &y.pet_vec) && same_list(&x.number_vec, &y.number_vec);
        if !same_house {
            assert(lists(a@)[i as int] != lists(b@)[i as int]) by {
                if a@[i as int]@ == b@[i as int]@ {
                    assert(a@[i as int]@[0] == b@[i as int]@[0]);
                    assert(a@[i as int]@[1] == b@[i as int]@[1]);
                    assert(a@[i as int]@[2] == b@[i as int]@[2]);
                    assert(a@[i as int]@[3] == b@[i as int]@[3]);
                    assert(a@[i as int]@[4] == b@[i as int]@[4]);
                    assert(a@[i as int]@[5] == b@[i as int]@[5]);
                }
            }
            return false;
        }
        assert(a@[i as int]@ =~= b@[i as int]@);
    }
    assert(lists(a@) =~= lists(b@));
    true
}

/// Play one round: check every open constraint in order against the houses,
/// drop the settled ones (they are returned, in order), and clean up.
pub fn solve_round(constraints: &mut Vec<Constraint>, houses: &mut Vec<House>) -> (settled: Vec<Constraint>)
    requires
        all_applicable(old(constraints)@, old(houses)@.len() as int),
    ensures
        final(constraints)@ == round(old(constraints)@, lists(old(houses)@)).0,
        lists(final(houses)@) == round(old(constraints)@, lists(old(houses)@)).1,
        settled@ == round(old(constraints)@, lists(old(houses)@)).2,
{
    let ghost cs = constraints@;
    let ghost h0 = lists(houses@);
    let n = houses.len();
    let m = constraints.len();
    let mut flags: Vec<bool> = Vec::new();

    for index in 0..m
        invariant
            m == constraints@.len(),
            constraints@ == cs,
            houses@.len() == n,
            h0.len() == n,
            all_applicable(cs, n as int),
            lists(houses@) == check_upto(h0, cs, index as nat).0,
            flags@ == check_upto(h0, cs, index as nat).1,
    {
        let constraint = constraints[index];
        assert(applicable(cs[index as int], n as int));
        let ghost before = lists(houses@);
        let constraint_fulfilled = match constraint {
            Constraint::DirectConstraint(value) => check_direct_constraint(houses, value),
            Constraint::LocationConstraint(value) => check_location_constraint(houses, value),
        };
        proof { lemma_check_outcome_len(before, constraint); }
        flags.push(constraint_fulfilled);
    }
    proof { lemma_check_upto_len(h0, cs, m as nat); }

    // Keep the constraints that are still open, in order.
    let mut remaining: Vec<Constraint> = Vec::new();
    let mut settled: Vec<Constraint> = Vec::new();
    for i in 0..m
        invariant
            m == constraints@.len(),
            constraints@ == cs,
            flags@.len() == m,
            remaining@ == select(cs.take(i as int), flags@.take(i as int), false),
            settled@ == select(cs.take(i as int), flags@.take(i as int), true),
    {
        assert(cs.take(i + 1).drop_last() =~= cs.take(i as int));
        assert(flags@.take(i + 1).drop_last() =~= flags@.take(i as int));
        if flags[i] {
            settled.push(constraints[i]);
        } else {
            remaining.push(constraints[i]);
        }
    }
    assert(cs.take(m as int) =~= cs);
    assert(flags@.take(m as int) =~= flags@);
    *constraints = remaining;

    cleanup(houses);
    settled
}

/// Play rounds until every constraint is settled, or until a round changes
/// nothing (then every further round would change nothing either, and the
/// constraints left can never be settled). Returns the constraints settled
/// in each round played, in order.
pub fn solve(constraints: &mut Vec<Constraint>, houses: &mut Vec<House>) -> (rounds: Vec<Vec<Constraint>>)
    requires
        all_applicable(old(constraints)@, old(houses)@.len() as int),
    ensures
        final(constraints)@ == play(old(constraints)@, lists(old(houses)@), rounds@.len() as nat).0,
        lists(final(houses)@) == play(old(constraints)@, lists(old(houses)@), rounds@.len() as nat).1,
        forall|k: int|
            0 <= k < rounds@.len() ==> (#[trigger] rounds@[k])@ == settled_in_round(
                old(constraints)@,
                lists(old(houses)@),
                k as nat,
            ),
        final(constraints)@.len() == 0 || stuck(final(constraints)@, lists(final(houses)@)),
        forall|k: int|
            0 <= k < rounds@.len() ==> (#[trigger] play(old(constraints)@, lists(old(houses)@), k as nat)).0.len() > 0,
        forall|k: int|
            0 <= k && k + 1 < rounds@.len() ==> !stuck(
                #[trigger] play(old(constraints)@, lists(old(houses)@), k as nat).0,
                play(old(constraints)@, lists(old(houses)@), k as nat).1,
            ),
{
    let ghost cs0 = constraints@;
    let ghost h0 = lists(houses@);
    let n = houses.len();
    let mut rounds: Vec<Vec<Constraint>> = Vec::new();
    loop
        invariant_except_break
            forall|k: int|
                0 <= k < rounds@.len() ==> (#[trigger] play(cs0, h0, k as nat)).0.len() > 0 && !stuck(
                    play(cs0, h0, k as nat).0,
                    play(cs0, h0, k as nat).1,
                ),
        invariant
            houses@.len() == n,
            h0.len() == n,
            all_applicable(constraints@, n as int),
            constraints@ == play(cs0, h0, rounds@.len() as nat).0,
            lists(houses@) == play(cs0, h0, rounds@.len() as nat).1,
            forall|k: int|
                0 <= k < rounds@.len() ==> (#[trigger] rounds@[k])@ == settled_in_round(cs0, h0, k as nat),
        ensures
            constraints@ == play(cs0, h0, rounds@.len() as nat).0,
            lists(houses@) == play(cs0, h0, rounds@.len() as nat).1,
            forall|k: int|
                0 <= k < rounds@.len() ==> (#[trigger] rounds@[k])@ == settled_in_round(cs0, h0, k as nat),
            constraints@.len() == 0 || stuck(constraints@, lists(houses@)),
            forall|k: int|
                0 <= k < rounds@.len() ==> (#[trigger] play(cs0, h0, k as nat)).0.len() > 0,
            forall|k: int|
                0 <= k && k + 1 < rounds@.len() ==> !stuck(
                    #[trigger] play(cs0, h0, k as nat).0,
                    play(cs0, h0, k as nat).1,
                ),
        decreases street_size(lists(houses@)) + constraints@.len(),
    {
        if constraints.len() == 0 {
            break;
        }
        let ghost cs = constraints@;
        let ghost hs = lists(houses@);
        let before_len = constraints.len();
        let snapshot = copy_houses(houses);
        let settled = solve_round(constraints, houses);
        proof {
            let checked = check_upto(hs, cs, cs.len());
            lemma_check_upto_len(hs, cs, cs.len());
            lemma_select_len(cs, checked.1);
            lemma_select_applicable(cs, checked.1, false, n as int);
            lemma_round_narrower(cs, hs);
            lemma_street_size(lists(houses@), hs);
        }
        let ghost before = rounds@;
        rounds.push(settled);
        assert forall|k: int| 0 <= k < rounds@.len() implies (#[trigger] rounds@[k])@ == settled_in_round(cs0, h0, k as nat) by {
            if k < before.len() {
                assert(rounds@[k] == before[k]);
            }
        }
        if constraints.len() == before_len && same_street(&snapshot, houses) {
            // Nothing changed: every further round would change nothing.
            assert(constraints@ == cs);
            assert(lists(houses@) == hs);
            assert(round(cs, hs).2 =~= Seq::<Constraint>::empty());
            assert(stuck(constraints@, lists(houses@)));
            break;
        }
        // Something changed: this round was not stuck.
        assert(!stuck(cs, hs)) by {
            if stuck(cs, hs) {
                assert(constraints@ == cs);
                assert(lists(houses@) == hs);
                assert(constraints.len() == before_len);
            }
        }
    }
    rounds
}

} // verus!

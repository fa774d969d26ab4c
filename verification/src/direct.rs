use vstd::prelude::*;
use crate::types::{DirectConstraint, House};
use crate::types::Trait;
use crate::model::{allows, lemma_strike_absent, lemma_strike_has, lists, narrow, strike, HouseLists, Street};
use crate::house_ops::{contains, delete_all_except, delete_trait};
use crate::narrowing::{
    house_narrower, lemma_house_narrower_refl, lemma_house_narrower_trans, lemma_narrow_narrower,
    lemma_strike_narrower, narrower, well_formed,
};

verus! {

/// The house still allows both traits of the pair.
pub open spec fn fits(h: HouseLists, t1: Trait, t2: Trait) -> bool {
    allows(h, t1) && allows(h, t2)
}

/// House `j` is the only one that still allows both traits.
pub open spec fn sole_fit(hs: Street, t1: Trait, t2: Trait, j: int) -> bool {
    &&& 0 <= j < hs.len()
    &&& fits(hs[j], t1, t2)
    &&& forall|i: int| 0 <= i < hs.len() && i != j ==> !fits(#[trigger] hs[i], t1, t2)
}

/// The pair is settled: exactly one house can hold both traits.
pub open spec fn direct_settles(hs: Street, t1: Trait, t2: Trait) -> bool {
    exists|j: int| sole_fit(hs, t1, t2, j)
}

/// A house that cannot hold both traits loses both; the others stay as they are.
pub open spec fn first_pass(h: HouseLists, t1: Trait, t2: Trait) -> HouseLists {
    if fits(h, t1, t2) {
        h
    } else {
        strike(strike(h, t1), t2)
    }
}

/// The houses after checking the pair: houses that cannot hold both traits
/// lose both, and when one house alone can, its lists of those categories
/// are narrowed to the two traits.
pub open spec fn direct_outcome(hs: Street, t1: Trait, t2: Trait) -> Street {
    Seq::new(
        hs.len(),
        |i: int|
            if fits(hs[i], t1, t2) && direct_settles(hs, t1, t2) {
                narrow(narrow(hs[i], t1), t2)
            } else {
                first_pass(hs[i], t1, t2)
            },
    )
}

/// Once both traits are struck from a house, striking them again changes nothing.
pub proof fn lemma_first_pass_settled(h: HouseLists, t1: Trait, t2: Trait)
    requires
        h.len() == 6,
    ensures
        !allows(strike(strike(h, t1), t2), t1),
        !allows(strike(strike(h, t1), t2), t2),
        strike(strike(strike(strike(h, t1), t2), t1), t2) == strike(strike(h, t1), t2),
{
    let g = strike(strike(h, t1), t2);
    lemma_strike_has(h, t1, t1);
    lemma_strike_has(strike(h, t1), t2, t1);
    lemma_strike_has(strike(h, t1), t2, t2);
    lemma_strike_absent(g, t1);
    lemma_strike_absent(g, t2);
}

/// Check a direct constraint: both traits must belong to the same house.
///
/// Every house that cannot hold both traits loses them. When exactly one
/// house can, the two traits are struck everywhere else and that house keeps
/// only them in their categories; the constraint is then settled (`true`).
pub fn check_direct_constraint(houses: &mut Vec<House>, constraint: DirectConstraint) -> (settled: bool)
    ensures
        settled == direct_settles(lists(old(houses)@), constraint.trait_1, constraint.trait_2),
        lists(final(houses)@) == direct_outcome(
            lists(old(houses)@),
            constraint.trait_1,
            constraint.trait_2,
        ),
{
    let ghost h0 = lists(houses@);
    let mut fulfilled_constraints: Vec<usize> = Vec::new();
    let trait_1 = constraint.trait_1;
    let trait_2 = constraint.trait_2;
    let n = houses.len();

    for index in 0..n
        invariant
            n == houses@.len(),
            h0.len() == n,
            forall|i: int| 0 <= i < n ==> (#[trigger] h0[i]).len() == 6,
            forall|i: int| 0 <= i < index ==> #[trigger] houses@[i]@ == first_pass(h0[i], trait_1, trait_2),
            forall|i: int| index <= i < n ==> #[trigger] houses@[i]@ == h0[i],
            forall|k: int|
                0 <= k < fulfilled_constraints@.len() ==> {
                    &&& #[trigger] fulfilled_constraints@[k] < index
                    &&& fits(h0[fulfilled_constraints@[k] as int], trait_1, trait_2)
                },
            forall|k1: int, k2: int|
                0 <= k1 < k2 < fulfilled_constraints@.len() ==> fulfilled_constraints@[k1]
                    < fulfilled_constraints@[k2],
            forall|i: int|
                0 <= i < index && fits(#[trigger] h0[i], trait_1, trait_2)
                    ==> fulfilled_constraints@.contains(i as usize),
    {
        let ghost h = h0[index as int];
        let trait_1_contains = contains(&houses[index], &trait_1);
        let trait_2_contains = contains(&houses[index], &trait_2);

        if trait_1_contains && trait_2_contains {
            // Both traits are still possible for this house.
            let ghost before = fulfilled_constraints@;
            fulfilled_constraints.push(index);
            assert(fulfilled_constraints@[fulfilled_constraints@.len() - 1] == index);
            assert forall|x: usize| before.contains(x) implies fulfilled_constraints@.contains(x) by {
                let k = choose|k: int| 0 <= k < before.len() && before[k] == x;
                assert(fulfilled_constraints@[k] == x);
            }
        } else {
            // The pairing is impossible here: neither trait can stay.
            if trait_1_contains {
                delete_trait(&mut houses[index], trait_1);
            } else {
                proof { lemma_strike_absent(h, trait_1); }
            }
            proof { lemma_strike_has(h, trait_1, trait_2); }
            if trait_2_contains {
                delete_trait(&mut houses[index], trait_2);
            } else {
                proof { lemma_strike_absent(strike(h, trait_1), trait_2); }
            }
        }
    }

    let ghost settles = direct_settles(h0, trait_1, trait_2);
    proof {
        if settles {
            let j = choose|j: int| sole_fit(h0, trait_1, trait_2, j);
            assert(fulfilled_constraints@.contains(j as usize));
            if fulfilled_constraints@.len() != 1 {
                let k0 = choose|k: int| 0 <= k < fulfilled_constraints@.len() && fulfilled_constraints@[k] == j as usize;
                let other = if k0 == 0 { 1int } else { 0int };
                let o = fulfilled_constraints@[other] as int;
                assert(fits(h0[o], trait_1, trait_2));
            }
        }
        if fulfilled_constraints@.len() == 1 {
            let j = fulfilled_constraints@[0] as int;
            assert forall|i: int| 0 <= i < h0.len() && i != j implies !fits(#[trigger] h0[i], trait_1, trait_2) by {
                if fits(h0[i], trait_1, trait_2) {
                    assert(fulfilled_constraints@.contains(i as usize));
                }
            }
            assert(sole_fit(h0, trait_1, trait_2, j));
        }
    }

    if fulfilled_constraints.len() == 1 {
        // One house alone can hold both traits: nowhere else may they stay.
        let j = fulfilled_constraints[0];
        for index in 0..n
            invariant
                n == houses@.len(),
                h0.len() == n,
                forall|i: int| 0 <= i < n ==> (#[trigger] h0[i]).len() == 6,
                j < n,
                sole_fit(h0, trait_1, trait_2, j as int),
                forall|i: int| 0 <= i < n ==> #[trigger] houses@[i]@ == first_pass(h0[i], trait_1, trait_2),
        {
            if index != j {
                proof { lemma_first_pass_settled(h0[index as int], trait_1, trait_2); }
                delete_trait(&mut houses[index], trait_1);
                delete_trait(&mut houses[index], trait_2);
            }
        }
        delete_all_except(&mut houses[j], trait_1);
        delete_all_except(&mut houses[j], trait_2);
        assert(lists(houses@) =~= direct_outcome(h0, trait_1, trait_2));
        true
    } else {
        assert(lists(houses@) =~= direct_outcome(h0, trait_1, trait_2));
        false
    }
}

/// Checking a direct constraint only strikes values.
pub proof fn lemma_direct_outcome_narrower(hs: Street, t1: Trait, t2: Trait)
    requires
        well_formed(hs),
    ensures
        narrower(direct_outcome(hs, t1, t2), hs),
{
    let out = direct_outcome(hs, t1, t2);
    assert forall|i: int| 0 <= i < hs.len() implies house_narrower(#[trigger] out[i], hs[i]) by {
        let h = hs[i];
        lemma_strike_narrower(h, t1);
        lemma_strike_narrower(strike(h, t1), t2);
        lemma_house_narrower_trans(strike(strike(h, t1), t2), strike(h, t1), h);
        lemma_narrow_narrower(h, t1);
        lemma_narrow_narrower(narrow(h, t1), t2);
        lemma_house_narrower_trans(narrow(narrow(h, t1), t2), narrow(h, t1), h);
        lemma_house_narrower_refl(h);
    }
}

} // verus!

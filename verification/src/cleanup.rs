use vstd::prelude::*;
use crate::types::{House, Trait};
use crate::model::{allows, lemma_strike_has, lists, strike, HouseLists, Street};
use crate::house_ops::delete_trait;
use crate::narrowing::{
    house_narrower, lemma_house_narrower_refl, lemma_house_narrower_trans, lemma_narrower_refl,
    lemma_narrower_trans, lemma_narrower_well_formed, lemma_strike_narrower, narrower, well_formed,
};

verus! {

/// The value a house is settled on in category `k`, if its list there holds
/// exactly one value.
pub open spec fn settled_in(h: HouseLists, k: int) -> Seq<Trait> {
    if h[k].len() == 1 {
        seq![h[k][0]]
    } else {
        seq![]
    }
}

/// The values a house is settled on, in the order color, nationality, brand,
/// drink, pet (house numbers are not spread).
pub open spec fn settled_values(h: HouseLists) -> Seq<Trait> {
    settled_in(h, 0) + settled_in(h, 1) + settled_in(h, 2) + settled_in(h, 3) + settled_in(h, 4)
}

/// The house with every value of `ts` struck, first to last.
pub open spec fn strike_all(h: HouseLists, ts: Seq<Trait>) -> HouseLists
    decreases ts.len(),
{
    if ts.len() == 0 {
        h
    } else {
        strike(strike_all(h, ts.drop_last()), ts.last())
    }
}

/// Step `i` of the cleanup: the values house `i` is settled on are struck
/// from every other house.
pub open spec fn cleanup_turn(s: Street, i: int) -> Street {
    Seq::new(s.len(), |j: int| if j == i { s[j] } else { strike_all(s[j], settled_values(s[i])) })
}

/// The street after the first `k` steps of the cleanup.
pub open spec fn cleanup_upto(hs: Street, k: nat) -> Street
    decreases k,
{
    if k == 0 {
        hs
    } else {
        cleanup_turn(cleanup_upto(hs, (k - 1) as nat), k - 1)
    }
}

/// The street after a full cleanup, house by house from left to right.
pub open spec fn cleaned(hs: Street) -> Street {
    cleanup_upto(hs, hs.len())
}

/// Striking several values only strikes values.
pub proof fn lemma_strike_all_narrower(h: HouseLists, ts: Seq<Trait>)
    requires
        h.len() == 6,
    ensures
        house_narrower(strike_all(h, ts), h),
    decreases ts.len(),
{
    if ts.len() == 0 {
        lemma_house_narrower_refl(h);
    } else {
        lemma_strike_all_narrower(h, ts.drop_last());
        let g = strike_all(h, ts.drop_last());
        lemma_strike_narrower(g, ts.last());
        lemma_house_narrower_trans(strike(g, ts.last()), g, h);
    }
}

/// The cleanup only strikes values.
pub proof fn lemma_cleanup_upto_narrower(hs: Street, k: nat)
    requires
        well_formed(hs),
        k <= hs.len(),
    ensures
        narrower(cleanup_upto(hs, k), hs),
    decreases k,
{
    if k == 0 {
        lemma_narrower_refl(hs);
    } else {
        lemma_cleanup_upto_narrower(hs, (k - 1) as nat);
        let prev = cleanup_upto(hs, (k - 1) as nat);
        lemma_narrower_well_formed(prev, hs);
        let cur = cleanup_turn(prev, k - 1);
        assert forall|j: int| 0 <= j < prev.len() implies house_narrower(#[trigger] cur[j], prev[j]) by {
            lemma_strike_all_narrower(prev[j], settled_values(prev[k - 1]));
            lemma_house_narrower_refl(prev[j]);
        }
        lemma_narrower_trans(cur, prev, hs);
    }
}

/// None of the struck values is allowed afterwards.
pub proof fn lemma_strike_all_absent(h: HouseLists, ts: Seq<Trait>, m: int)
    requires
        h.len() == 6,
        0 <= m < ts.len(),
    ensures
        !allows(strike_all(h, ts), ts[m]),
        strike_all(h, ts).len() == 6,
    decreases ts.len(),
{
    lemma_strike_all_narrower(h, ts);
    let g = strike_all(h, ts.drop_last());
    lemma_strike_all_narrower(h, ts.drop_last());
    if m < ts.len() - 1 {
        lemma_strike_all_absent(h, ts.drop_last(), m);
        assert(ts.drop_last()[m] == ts[m]);
    }
    lemma_strike_has(g, ts.last(), ts[m]);
}

/// A value a house holds alone in one of its first five lists is among the
/// values it is settled on.
pub proof fn lemma_settled_values_contains(h: HouseLists, k: int)
    requires
        h.len() == 6,
        0 <= k < 5,
        h[k].len() == 1,
    ensures
        settled_values(h).contains(h[k][0]),
{
    let parts = seq![settled_in(h, 0), settled_in(h, 1), settled_in(h, 2), settled_in(h, 3), settled_in(h, 4)];
    let before = if k == 0 {
        0
    } else if k == 1 {
        settled_in(h, 0).len()
    } else if k == 2 {
        settled_in(h, 0).len() + settled_in(h, 1).len()
    } else if k == 3 {
        settled_in(h, 0).len() + settled_in(h, 1).len() + settled_in(h, 2).len()
    } else {
        settled_in(h, 0).len() + settled_in(h, 1).len() + settled_in(h, 2).len() + settled_in(h, 3).len()
    };
    assert(settled_values(h)[before as int] == h[k][0]);
}

/// Later steps of the cleanup only strike values.
pub proof fn lemma_cleanup_later_narrower(hs: Street, k: nat, m: nat)
    requires
        well_formed(hs),
        k <= m <= hs.len(),
    ensures
        narrower(cleanup_upto(hs, m), cleanup_upto(hs, k)),
    decreases m,
{
    lemma_cleanup_upto_narrower(hs, k);
    lemma_narrower_well_formed(cleanup_upto(hs, k), hs);
    if m == k {
        lemma_narrower_refl(cleanup_upto(hs, k));
    } else {
        lemma_cleanup_later_narrower(hs, k, (m - 1) as nat);
        let prev = cleanup_upto(hs, (m - 1) as nat);
        lemma_cleanup_upto_narrower(hs, (m - 1) as nat);
        lemma_narrower_well_formed(prev, hs);
        let cur = cleanup_turn(prev, m - 1);
        assert forall|j: int| 0 <= j < prev.len() implies house_narrower(#[trigger] cur[j], prev[j]) by {
            lemma_strike_all_narrower(prev[j], settled_values(prev[m - 1]));
            lemma_house_narrower_refl(prev[j]);
        }
        lemma_narrower_trans(cur, prev, cleanup_upto(hs, k));
    }
}

/// The values the house is settled on, apart from its number.
fn settled_traits(house: &House) -> (values: Vec<Trait>)
    ensures
        values@ == settled_values(house@),
{
    let mut values: Vec<Trait> = Vec::new();
    if house.color_vec.len() == 1 {
        values.push(house.color_vec[0]);
    }
    if house.nationality_vec.len() == 1 {
        values.push(house.nationality_vec[0]);
    }
    if house.brand_vec.len() == 1 {
        values.push(house.brand_vec[0]);
    }
    if house.drink_vec.len() == 1 {
        values.push(house.drink_vec[0]);
    }
    if house.pet_vec.len() == 1 {
        values.push(house.pet_vec[0]);
    }
    assert(values@ =~= settled_values(house@));
    values
}

/// Go through all houses: a value that a house is settled on (its list of
/// that category holds only it) is struck from every other house.
pub fn cleanup(houses: &mut Vec<House>)
    ensures
        lists(final(houses)@) == cleaned(lists(old(houses)@)),
{
    let ghost h0 = lists(houses@);
    let n = houses.len();
    for index_1 in 0..n
        invariant
            n == houses@.len(),
            h0.len() == n,
            lists(houses@) == cleanup_upto(h0, index_1 as nat),
    {
        let ghost s = lists(houses@);
        let values = settled_traits(&houses[index_1]);
        assert(values@ == settled_values(s[index_1 as int]));
        for m in 0..values.len()
            invariant
                n == houses@.len(),
                s.len() == n,
                index_1 < n,
                values@ == settled_values(s[index_1 as int]),
                forall|j: int|
                    0 <= j < n ==> #[trigger] houses@[j]@ == if j == index_1 {
                        s[j]
                    } else {
                        strike_all(s[j], values@.take(m as int))
                    },
        {
            let t = values[m];
            assert(values@.take(m + 1).drop_last() =~= values@.take(m as int));
            for index_2 in 0..n
                invariant
                    n == houses@.len(),
                    s.len() == n,
                    index_1 < n,
                    m < values@.len(),
                    t == values@[m as int],
                    values@.take(m + 1).drop_last() == values@.take(m as int),
                    forall|j: int|
                        0 <= j < n ==> #[trigger] houses@[j]@ == if j == index_1 {
                            s[j]
                        } else if j < index_2 {
                            strike_all(s[j], values@.take(m + 1))
                        } else {
                            strike_all(s[j], values@.take(m as int))
                        },
            {
                if index_2 != index_1 {
                    delete_trait(&mut houses[index_2], t);
                }
            }
        }
        assert(values@.take(values@.len() as int) =~= values@);
        assert(lists(houses@) =~= cleanup_turn(s, index_1 as int));
    }
}

} // verus!

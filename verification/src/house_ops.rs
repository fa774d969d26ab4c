use vstd::prelude::*;
use crate::types::{House, Trait};
use crate::model::{allows, narrow, only, strike, without};

verus! {

/// Takes every occurrence of `t` out of `v`, keeping the order of the rest.
fn filter_out(v: &mut Vec<Trait>, t: Trait)
    ensures
        final(v)@ == without(old(v)@, t),
{
    let ghost s = v@;
    let mut kept: Vec<Trait> = Vec::new();
    let n = v.len();
    for i in 0..n
        invariant
            n == v@.len(),
            v@ == s,
            kept@ == without(s.take(i as int), t),
    {
        assert(s.take(i + 1).drop_last() =~= s.take(i as int));
        let x = v[i];
        if x != t {
            kept.push(x);
        }
    }
    assert(s.take(n as int) =~= s);
    *v = kept;
}

/// Delete the given trait from the corresponding list of the house.
pub fn delete_trait(house: &mut House, trait_to_delete: Trait)
    ensures
        final(house)@ == strike(old(house)@, trait_to_delete),
{
    match trait_to_delete {
        Trait::Color(_) => filter_out(&mut house.color_vec, trait_to_delete),
        Trait::Nationality(_) => filter_out(&mut house.nationality_vec, trait_to_delete),
        Trait::Brand(_) => filter_out(&mut house.brand_vec, trait_to_delete),
        Trait::Drink(_) => filter_out(&mut house.drink_vec, trait_to_delete),
        Trait::Pet(_) => filter_out(&mut house.pet_vec, trait_to_delete),
        Trait::Number(_) => filter_out(&mut house.number_vec, trait_to_delete),
    }
    assert(house@ =~= strike(old(house)@, trait_to_delete));
}


/// Takes everything but `t` out of `v`.
fn keep_only(v: &mut Vec<Trait>, t: Trait)
    ensures
        final(v)@ == only(old(v)@, t),
{
    let ghost s = v@;
    let mut kept: Vec<Trait> = Vec::new();
    let n = v.len();
    for i in 0..n
        invariant
            n == v@.len(),
            v@ == s,
            kept@ == only(s.take(i as int), t),
    {
        assert(s.take(i + 1).drop_last() =~= s.take(i as int));
        let x = v[i];
        if x == t {
            kept.push(x);
        }
    }
    assert(s.take(n as int) =~= s);
    *v = kept;
}

/// Whether `v` holds `t`.
fn holds(v: &Vec<Trait>, t: &Trait) -> (found: bool)
    ensures
        found == v@.contains(*t),
{
    let n = v.len();
    for i in 0..n
        invariant
            n == v@.len(),
            forall|j: int| 0 <= j < i ==> v@[j] != *t,
    {
        if v[i] == *t {
            return true;
        }
    }
    false
}

/// Delete all but the given trait from the corresponding list of the house.
pub fn delete_all_except(house: &mut House, trait_to_keep: Trait)
    ensures
        final(house)@ == narrow(old(house)@, trait_to_keep),
{
    match trait_to_keep {
        Trait::Color(_) => keep_only(&mut house.color_vec, trait_to_keep),
        Trait::Nationality(_) => keep_only(&mut house.nationality_vec, trait_to_keep),
        Trait::Brand(_) => keep_only(&mut house.brand_vec, trait_to_keep),
        Trait::Drink(_) => keep_only(&mut house.drink_vec, trait_to_keep),
        Trait::Pet(_) => keep_only(&mut house.pet_vec, trait_to_keep),
        Trait::Number(_) => keep_only(&mut house.number_vec, trait_to_keep),
    }
    assert(house@ =~= narrow(old(house)@, trait_to_keep));
}

/// Does this house still allow this trait?
pub fn contains(house: &House, trait_to_check: &Trait) -> (found: bool)
    ensures
        found == allows(house@, *trait_to_check),
{
    match trait_to_check {
        Trait::Color(_) => holds(&house.color_vec, trait_to_check),
        Trait::Nationality(_) => holds(&house.nationality_vec, trait_to_check),
        Trait::Brand(_) => holds(&house.brand_vec, trait_to_check),
        Trait::Drink(_) => holds(&house.drink_vec, trait_to_check),
        Trait::Pet(_) => holds(&house.pet_vec, trait_to_check),
        Trait::Number(_) => holds(&house.number_vec, trait_to_check),
    }
}

} // verus!

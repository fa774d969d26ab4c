use vstd::prelude::*;
use crate::types::Trait;
use crate::model::{narrow, only, strike, without, HouseLists, Street};

verus! {

/// The elements of `b` that `a` holds, in the order of `b`.
pub open spec fn picked(b: Seq<Trait>, a: Seq<Trait>) -> Seq<Trait>
    decreases b.len(),
{
    if b.len() == 0 {
        b
    } else {
        let rest = picked(b.drop_last(), a);
        if a.contains(b.last()) {
            rest.push(b.last())
        } else {
            rest
        }
    }
}

/// `a` is what is left of `b` once some values are struck: the elements of
/// `b` that `a` holds, in the same order.
pub open spec fn left_of(a: Seq<Trait>, b: Seq<Trait>) -> bool {
    a == picked(b, a)
}

/// Every list of house `g` is what is left of the same list of house `h`.
pub open spec fn house_narrower(g: HouseLists, h: HouseLists) -> bool {
    &&& g.len() == 6
    &&& h.len() == 6
    &&& forall|k: int| 0 <= k < 6 ==> left_of(#[trigger] g[k], h[k])
}

/// Street `s2` has the houses of `s1`, each with some values struck.
pub open spec fn narrower(s2: Street, s1: Street) -> bool {
    &&& s2.len() == s1.len()
    &&& forall|i: int| 0 <= i < s1.len() ==> house_narrower(#[trigger] s2[i], s1[i])
}

/// Every house of the street has its six lists.
pub open spec fn well_formed(s: Street) -> bool {
    forall|i: int| 0 <= i < s.len() ==> (#[trigger] s[i]).len() == 6
}

/// The number of values still possible in a house.
pub open spec fn house_size(h: HouseLists) -> nat {
    h[0].len() + h[1].len() + h[2].len() + h[3].len() + h[4].len() + h[5].len()
}

/// The number of values still possible in the whole street.
pub open spec fn street_size(s: Street) -> nat
    decreases s.len(),
{
    if s.len() == 0 {
        0
    } else {
        street_size(s.drop_last()) + house_size(s.last())
    }
}

proof fn lemma_drop_last_contains(s: Seq<Trait>, x: Trait)
    requires
        s.len() > 0,
    ensures
        s.contains(x) <==> (s.drop_last().contains(x) || s.last() == x),
{
    if s.contains(x) {
        let i = choose|i: int| 0 <= i < s.len() && s[i] == x;
        if i < s.len() - 1 {
            assert(s.drop_last()[i] == x);
        }
    }
    if s.drop_last().contains(x) {
        let k = choose|k: int| 0 <= k < s.drop_last().len() && s.drop_last()[k] == x;
        assert(s[k] == x);
    }
    if s.last() == x {
        assert(s[s.len() - 1] == x);
    }
}

proof fn lemma_push_contains(s: Seq<Trait>, y: Trait, x: Trait)
    ensures
        s.push(y).contains(x) <==> (s.contains(x) || y == x),
{
    lemma_drop_last_contains(s.push(y), x);
    assert(s.push(y).drop_last() =~= s);
}

/// What is picked from `b` is what `b` and `a` both hold.
pub proof fn lemma_picked_contains(b: Seq<Trait>, a: Seq<Trait>, x: Trait)
    ensures
        picked(b, a).contains(x) <==> (b.contains(x) && a.contains(x)),
    decreases b.len(),
{
    if b.len() > 0 {
        lemma_picked_contains(b.drop_last(), a, x);
        lemma_drop_last_contains(b, x);
        lemma_push_contains(picked(b.drop_last(), a), b.last(), x);
    }
}

/// Picking never lengthens a list, and a pick as long as the list is the list.
pub proof fn lemma_picked_len(b: Seq<Trait>, a: Seq<Trait>)
    ensures
        picked(b, a).len() <= b.len(),
        picked(b, a).len() == b.len() ==> picked(b, a) == b,
    decreases b.len(),
{
    if b.len() > 0 {
        lemma_picked_len(b.drop_last(), a);
        if picked(b, a).len() == b.len() {
            assert(b.drop_last().push(b.last()) =~= b);
        }
    }
}

/// Picking depends only on which values of `b` the picking list holds.
pub proof fn lemma_picked_same(b: Seq<Trait>, a1: Seq<Trait>, a2: Seq<Trait>)
    requires
        forall|x: Trait| b.contains(x) ==> (a1.contains(x) <==> a2.contains(x)),
    ensures
        picked(b, a1) == picked(b, a2),
    decreases b.len(),
{
    if b.len() > 0 {
        assert forall|x: Trait| b.drop_last().contains(x) implies (a1.contains(x) <==> a2.contains(x)) by {
            lemma_drop_last_contains(b, x);
        }
        lemma_picked_same(b.drop_last(), a1, a2);
        lemma_drop_last_contains(b, b.last());
    }
}

/// Picking what a list already holds keeps all of it.
pub proof fn lemma_picked_all(b: Seq<Trait>, a: Seq<Trait>)
    requires
        forall|x: Trait| b.contains(x) ==> a.contains(x),
    ensures
        picked(b, a) == b,
    decreases b.len(),
{
    if b.len() > 0 {
        assert forall|x: Trait| b.drop_last().contains(x) implies a.contains(x) by {
            lemma_drop_last_contains(b, x);
        }
        lemma_picked_all(b.drop_last(), a);
        lemma_drop_last_contains(b, b.last());
        assert(b.drop_last().push(b.last()) =~= b);
    }
}

/// Picking twice is picking once with the smaller list.
pub proof fn lemma_picked_twice(c: Seq<Trait>, b: Seq<Trait>, a: Seq<Trait>)
    requires
        forall|x: Trait| a.contains(x) ==> b.contains(x),
    ensures
        picked(picked(c, b), a) == picked(c, a),
    decreases c.len(),
{
    if c.len() > 0 {
        lemma_picked_twice(c.drop_last(), b, a);
        let rest = picked(c.drop_last(), b);
        if b.contains(c.last()) {
            assert(picked(c, b).drop_last() =~= rest);
        }
    }
}

/// Striking a value leaves a part of the list.
pub proof fn lemma_without_left_of(s: Seq<Trait>, t: Trait, a: Seq<Trait>)
    requires
        forall|x: Trait| s.contains(x) ==> (a.contains(x) <==> x != t),
    ensures
        picked(s, a) == without(s, t),
    decreases s.len(),
{
    if s.len() > 0 {
        assert forall|x: Trait| s.drop_last().contains(x) implies (a.contains(x) <==> x != t) by {
            lemma_drop_last_contains(s, x);
        }
        lemma_without_left_of(s.drop_last(), t, a);
        lemma_drop_last_contains(s, s.last());
    }
}

/// Narrowing to a value leaves a part of the list.
pub proof fn lemma_only_left_of(s: Seq<Trait>, t: Trait, a: Seq<Trait>)
    requires
        forall|x: Trait| s.contains(x) ==> (a.contains(x) <==> x == t),
    ensures
        picked(s, a) == only(s, t),
    decreases s.len(),
{
    if s.len() > 0 {
        assert forall|x: Trait| s.drop_last().contains(x) implies (a.contains(x) <==> x == t) by {
            lemma_drop_last_contains(s, x);
        }
        lemma_only_left_of(s.drop_last(), t, a);
        lemma_drop_last_contains(s, s.last());
    }
}

/// A list is what is left of itself.
pub proof fn lemma_left_of_refl(s: Seq<Trait>)
    ensures
        left_of(s, s),
{
    lemma_picked_all(s, s);
}

/// What is left of what is left of a list is what is left of that list.
pub proof fn lemma_left_of_trans(a: Seq<Trait>, b: Seq<Trait>, c: Seq<Trait>)
    requires
        left_of(a, b),
        left_of(b, c),
    ensures
        left_of(a, c),
{
    assert forall|x: Trait| a.contains(x) implies b.contains(x) by {
        lemma_picked_contains(b, a, x);
    }
    lemma_picked_twice(c, b, a);
}

/// What is left of a list is no longer, and is the list if it is as long.
pub proof fn lemma_left_of_len(a: Seq<Trait>, b: Seq<Trait>)
    requires
        left_of(a, b),
    ensures
        a.len() <= b.len(),
        a.len() == b.len() ==> a == b,
{
    lemma_picked_len(b, a);
}

/// Striking a value from a list leaves a part of it.
pub proof fn lemma_without_is_left_of(s: Seq<Trait>, t: Trait)
    ensures
        left_of(without(s, t), s),
{
    assert forall|x: Trait| s.contains(x) implies (without(s, t).contains(x) <==> x != t) by {
        crate::model::lemma_without_contains(s, t, x);
    }
    lemma_without_left_of(s, t, without(s, t));
}

/// Narrowing a list to a value leaves a part of it.
pub proof fn lemma_only_is_left_of(s: Seq<Trait>, t: Trait)
    ensures
        left_of(only(s, t), s),
{
    assert forall|x: Trait| s.contains(x) implies (only(s, t).contains(x) <==> x == t) by {
        crate::model::lemma_only_contains(s, t, x);
    }
    lemma_only_left_of(s, t, only(s, t));
}

/// A house is narrower than itself.
pub proof fn lemma_house_narrower_refl(h: HouseLists)
    requires
        h.len() == 6,
    ensures
        house_narrower(h, h),
{
    assert forall|k: int| 0 <= k < 6 implies left_of(#[trigger] h[k], h[k]) by {
        lemma_left_of_refl(h[k]);
    }
}

/// Narrowing houses composes.
pub proof fn lemma_house_narrower_trans(g: HouseLists, h: HouseLists, f: HouseLists)
    requires
        house_narrower(g, h),
        house_narrower(h, f),
    ensures
        house_narrower(g, f),
{
    assert forall|k: int| 0 <= k < 6 implies left_of(#[trigger] g[k], f[k]) by {
        lemma_left_of_trans(g[k], h[k], f[k]);
    }
}

/// Striking a value narrows a house.
pub proof fn lemma_strike_narrower(h: HouseLists, t: Trait)
    requires
        h.len() == 6,
    ensures
        house_narrower(strike(h, t), h),
{
    let g = strike(h, t);
    assert forall|k: int| 0 <= k < 6 implies left_of(#[trigger] g[k], h[k]) by {
        if k == crate::model::category(t) {
            lemma_without_is_left_of(h[k], t);
        } else {
            lemma_left_of_refl(h[k]);
        }
    }
}

/// Narrowing a category to a value narrows a house.
pub proof fn lemma_narrow_narrower(h: HouseLists, t: Trait)
    requires
        h.len() == 6,
    ensures
        house_narrower(narrow(h, t), h),
{
    let g = narrow(h, t);
    assert forall|k: int| 0 <= k < 6 implies left_of(#[trigger] g[k], h[k]) by {
        if k == crate::model::category(t) {
            lemma_only_is_left_of(h[k], t);
        } else {
            lemma_left_of_refl(h[k]);
        }
    }
}

/// A street is narrower than itself.
pub proof fn lemma_narrower_refl(s: Street)
    requires
        well_formed(s),
    ensures
        narrower(s, s),
{
    assert forall|i: int| 0 <= i < s.len() implies house_narrower(#[trigger] s[i], s[i]) by {
        lemma_house_narrower_refl(s[i]);
    }
}

/// Narrowing streets composes.
pub proof fn lemma_narrower_trans(s3: Street, s2: Street, s1: Street)
    requires
        narrower(s3, s2),
        narrower(s2, s1),
    ensures
        narrower(s3, s1),
{
    assert forall|i: int| 0 <= i < s1.len() implies house_narrower(#[trigger] s3[i], s1[i]) by {
        lemma_house_narrower_trans(s3[i], s2[i], s1[i]);
    }
}

/// A narrower street is well formed.
pub proof fn lemma_narrower_well_formed(s2: Street, s1: Street)
    requires
        narrower(s2, s1),
    ensures
        well_formed(s2),
{
    assert forall|i: int| 0 <= i < s2.len() implies (#[trigger] s2[i]).len() == 6 by {
        assert(house_narrower(s2[i], s1[i]));
    }
}

/// Replacing one house by a narrower one narrows the street.
pub proof fn lemma_update_narrower(s: Street, i: int, g: HouseLists)
    requires
        well_formed(s),
        0 <= i < s.len(),
        house_narrower(g, s[i]),
    ensures
        narrower(s.update(i, g), s),
{
    let u = s.update(i, g);
    assert forall|j: int| 0 <= j < s.len() implies house_narrower(#[trigger] u[j], s[j]) by {
        if j != i {
            lemma_house_narrower_refl(s[j]);
        }
    }
}

/// Striking a value from one house narrows the street.
pub proof fn lemma_strike_at_narrower(s: Street, i: int, t: Trait)
    requires
        well_formed(s),
        0 <= i < s.len(),
    ensures
        narrower(s.update(i, strike(s[i], t)), s),
        well_formed(s.update(i, strike(s[i], t))),
{
    lemma_strike_narrower(s[i], t);
    lemma_update_narrower(s, i, strike(s[i], t));
    lemma_narrower_well_formed(s.update(i, strike(s[i], t)), s);
}

/// A narrower house allows nothing the house did not allow.
pub proof fn lemma_narrower_allows(g: HouseLists, h: HouseLists, x: Trait)
    requires
        house_narrower(g, h),
        crate::model::allows(g, x),
    ensures
        crate::model::allows(h, x),
{
    let k = crate::model::category(x);
    assert(left_of(g[k], h[k]));
    lemma_picked_contains(h[k], g[k], x);
}

/// A narrower house holds no more values, and holds as many only if it is
/// the same house.
pub proof fn lemma_house_size(g: HouseLists, h: HouseLists)
    requires
        house_narrower(g, h),
    ensures
        house_size(g) <= house_size(h),
        house_size(g) == house_size(h) ==> g == h,
{
    assert forall|k: int| 0 <= k < 6 implies (#[trigger] g[k]).len() <= h[k].len() && (g[k].len() == h[k].len() ==> g[k] == h[k]) by {
        lemma_left_of_len(g[k], h[k]);
    }
    assert(left_of(g[0], h[0]) && left_of(g[1], h[1]) && left_of(g[2], h[2]));
    assert(left_of(g[3], h[3]) && left_of(g[4], h[4]) && left_of(g[5], h[5]));
    if house_size(g) == house_size(h) {
        assert(g =~= h);
    }
}

/// A narrower street holds no more values, and holds as many only if it is
/// the same street.
pub proof fn lemma_street_size(s2: Street, s1: Street)
    requires
        narrower(s2, s1),
    ensures
        street_size(s2) <= street_size(s1),
        street_size(s2) == street_size(s1) ==> s2 == s1,
    decreases s1.len(),
{
    if s1.len() > 0 {
        let n = s1.len() - 1;
        assert(narrower(s2.drop_last(), s1.drop_last())) by {
            assert forall|i: int| 0 <= i < n implies house_narrower(#[trigger] s2.drop_last()[i], s1.drop_last()[i]) by {
                assert(house_narrower(s2[i], s1[i]));
            }
        }
        lemma_street_size(s2.drop_last(), s1.drop_last());
        assert(house_narrower(s2[n], s1[n]));
        lemma_house_size(s2.last(), s1.last());
        if street_size(s2) == street_size(s1) {
            assert(s2.drop_last().push(s2.last()) =~= s2);
            assert(s1.drop_last().push(s1.last()) =~= s1);
        }
    }
}

} // verus!

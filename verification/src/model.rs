use vstd::prelude::*;
use crate::types::{House, Trait};

verus! {

/// The six lists of one house, in the order color, nationality, brand,
/// drink, pet, number.
pub type HouseLists = Seq<Seq<Trait>>;

/// The lists of every house of the street, from left to right.
pub type Street = Seq<HouseLists>;

/// The category of a trait: the index of the list of a house that holds it.
pub open spec fn category(t: Trait) -> int {
    match t {
        Trait::Color(_) => 0,
        Trait::Nationality(_) => 1,
        Trait::Brand(_) => 2,
        Trait::Drink(_) => 3,
        Trait::Pet(_) => 4,
        Trait::Number(_) => 5,
    }
}

/// The number of categories a house keeps a list for.
pub open spec fn num_categories() -> int {
    6
}

/// `s` with every occurrence of `t` taken out, the rest in order.
pub open spec fn without(s: Seq<Trait>, t: Trait) -> Seq<Trait>
    decreases s.len(),
{
    if s.len() == 0 {
        s
    } else {
        let rest = without(s.drop_last(), t);
        if s.last() == t {
            rest
        } else {
            rest.push(s.last())
        }
    }
}

/// The occurrences of `t` in `s`, and nothing else.
pub open spec fn only(s: Seq<Trait>, t: Trait) -> Seq<Trait>
    decreases s.len(),
{
    if s.len() == 0 {
        s
    } else {
        let rest = only(s.drop_last(), t);
        if s.last() == t {
            rest.push(s.last())
        } else {
            rest
        }
    }
}

impl View for House {
    type V = Seq<Seq<Trait>>;

    /// The six lists of a house, in the order color, nationality, brand,
    /// drink, pet, number.
    open spec fn view(&self) -> Seq<Seq<Trait>> {
        seq![
            self.color_vec@,
            self.nationality_vec@,
            self.brand_vec@,
            self.drink_vec@,
            self.pet_vec@,
            self.number_vec@,
        ]
    }
}

/// The house (given by its lists) still allows `t`.
pub open spec fn allows(h: HouseLists, t: Trait) -> bool {
    h[category(t)].contains(t)
}

/// The house with `t` struck out of the list of its category.
pub open spec fn strike(h: HouseLists, t: Trait) -> HouseLists {
    h.update(category(t), without(h[category(t)], t))
}

/// The house with the list of the category of `t` narrowed to `t`.
pub open spec fn narrow(h: HouseLists, t: Trait) -> HouseLists {
    h.update(category(t), only(h[category(t)], t))
}

/// The lists of every house, in order.
pub open spec fn lists(houses: Seq<House>) -> Street {
    Seq::new(houses.len(), |i: int| houses[i]@)
}


/// What is left after striking `t` out of `s` is what `s` held, less `t`.
pub proof fn lemma_without_contains(s: Seq<Trait>, t: Trait, x: Trait)
    ensures
        without(s, t).contains(x) <==> (s.contains(x) && x != t),
    decreases s.len(),
{
    if s.len() > 0 {
        let init = s.drop_last();
        lemma_without_contains(init, t, x);
        let rest = without(init, t);
        // s holds x exactly when its front or its last element does.
        assert(s.contains(x) <==> (init.contains(x) || s.last() == x)) by {
            if s.contains(x) {
                let i = choose|i: int| 0 <= i < s.len() && s[i] == x;
                if i < s.len() - 1 {
                    assert(init[i] == x);
                }
            }
            if init.contains(x) {
                let k = choose|k: int| 0 <= k < init.len() && init[k] == x;
                assert(s[k] == x);
            }
            if s.last() == x {
                assert(s[s.len() - 1] == x);
            }
        }
        if s.last() != t {
            let out = rest.push(s.last());
            assert(out.contains(x) <==> (rest.contains(x) || s.last() == x)) by {
                if out.contains(x) {
                    let j = choose|j: int| 0 <= j < out.len() && out[j] == x;
                    if j < rest.len() {
                        assert(rest[j] == x);
                    }
                }
                if rest.contains(x) {
                    let j = choose|j: int| 0 <= j < rest.len() && rest[j] == x;
                    assert(out[j] == x);
                }
                if s.last() == x {
                    assert(out[rest.len() as int] == x);
                }
            }
        }
    }
}

/// Striking a value that is not there changes nothing.
pub proof fn lemma_without_absent(s: Seq<Trait>, t: Trait)
    requires
        !s.contains(t),
    ensures
        without(s, t) == s,
    decreases s.len(),
{
    if s.len() > 0 {
        assert(!s.drop_last().contains(t)) by {
            if s.drop_last().contains(t) {
                let k = choose|k: int| 0 <= k < s.drop_last().len() && s.drop_last()[k] == t;
                assert(s[k] == t);
            }
        }
        lemma_without_absent(s.drop_last(), t);
        assert(s.last() != t) by {
            assert(s[s.len() - 1] == s.last());
        }
        assert(s.drop_last().push(s.last()) =~= s);
    }
}

/// Narrowing keeps `t` where it was and drops everything else.
pub proof fn lemma_only_contains(s: Seq<Trait>, t: Trait, x: Trait)
    ensures
        only(s, t).contains(x) <==> (s.contains(x) && x == t),
    decreases s.len(),
{
    if s.len() > 0 {
        lemma_only_contains(s.drop_last(), t, x);
        let rest = only(s.drop_last(), t);
        if s.contains(x) && x == t {
            let i = choose|i: int| 0 <= i < s.len() && s[i] == x;
            if i < s.len() - 1 {
                assert(s.drop_last()[i] == x);
            } else {
                assert(only(s, t)[rest.len() as int] == x);
            }
        }
        if only(s, t).contains(x) {
            let j = choose|j: int| 0 <= j < only(s, t).len() && only(s, t)[j] == x;
            if j < rest.len() {
                assert(rest[j] == x);
                let k = choose|k: int| 0 <= k < s.drop_last().len() && s.drop_last()[k] == x;
                assert(s[k] == x);
            }
        }
    }
}

/// A house that no longer allows `t` loses nothing more when `t` is struck.
pub proof fn lemma_strike_absent(h: HouseLists, t: Trait)
    requires
        h.len() == num_categories(),
        !allows(h, t),
    ensures
        strike(h, t) == h,
{
    lemma_without_absent(h[category(t)], t);
    assert(strike(h, t) =~= h);
}

/// After striking `t`, a house allows exactly what it allowed before, less `t`.
pub proof fn lemma_strike_has(h: HouseLists, t: Trait, x: Trait)
    requires
        h.len() == num_categories(),
    ensures
        allows(strike(h, t), x) <==> (allows(h, x) && x != t),
{
    lemma_without_contains(h[category(t)], t, x);
}

/// After narrowing to `t`, a house allows `t` if it did, nothing else of
/// that category, and the same as before in every other category.
pub proof fn lemma_narrow_has(h: HouseLists, t: Trait, x: Trait)
    requires
        h.len() == num_categories(),
    ensures
        allows(narrow(h, t), x) <==> (if category(x) == category(t) { allows(h, x) && x == t } else { allows(h, x) }),
{
    lemma_only_contains(h[category(t)], t, x);
}

/// Striking two values gives the same list in either order.
pub proof fn lemma_without_commute(s: Seq<Trait>, a: Trait, b: Trait)
    ensures
        without(without(s, a), b) == without(without(s, b), a),
    decreases s.len(),
{
    if s.len() > 0 {
        lemma_without_commute(s.drop_last(), a, b);
        let x = s.last();
        let ra = without(s.drop_last(), a);
        let rb = without(s.drop_last(), b);
        if x != a {
            assert(ra.push(x).drop_last() =~= ra);
        }
        if x != b {
            assert(rb.push(x).drop_last() =~= rb);
        }
        if x != a && x != b {
            assert(without(ra, b).push(x).drop_last() =~= without(ra, b));
            assert(without(rb, a).push(x).drop_last() =~= without(rb, a));
        }
    }
}

/// Narrowing twice to the same value is narrowing once.
pub proof fn lemma_only_twice(s: Seq<Trait>, t: Trait)
    ensures
        only(only(s, t), t) == only(s, t),
    decreases s.len(),
{
    if s.len() > 0 {
        lemma_only_twice(s.drop_last(), t);
        let r = only(s.drop_last(), t);
        if s.last() == t {
            assert(r.push(t).drop_last() =~= r);
        }
    }
}

/// Striking two traits from a house gives the same house in either order.
pub proof fn lemma_strike_commute(h: HouseLists, a: Trait, b: Trait)
    requires
        h.len() == num_categories(),
    ensures
        strike(strike(h, a), b) == strike(strike(h, b), a),
{
    if category(a) == category(b) {
        lemma_without_commute(h[category(a)], a, b);
    }
    assert(strike(strike(h, a), b) =~= strike(strike(h, b), a));
}

/// Narrowing a house twice to the same trait is narrowing it once.
pub proof fn lemma_narrow_twice(h: HouseLists, t: Trait)
    requires
        h.len() == num_categories(),
    ensures
        narrow(narrow(h, t), t) == narrow(h, t),
{
    lemma_only_twice(h[category(t)], t);
    assert(narrow(narrow(h, t), t) =~= narrow(h, t));
}

} // verus!

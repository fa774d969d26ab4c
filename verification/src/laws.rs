//! What holds of the solver as a whole.
use vstd::prelude::*;
use crate::types::{
    Brand, Color, Constraint, DirectConstraint, Drink, LocationConstraint, Nationality, Pet, Trait,
};
use crate::model::{
    allows, category, lemma_narrow_has, lemma_narrow_twice, lemma_only_twice, lemma_strike_absent,
    lemma_strike_commute, lemma_strike_has, narrow, only, strike, HouseLists,
    Street,
};
use crate::direct::{
    direct_outcome, direct_settles, fits, lemma_direct_outcome_narrower, lemma_first_pass_settled,
    sole_fit,
};
use crate::location::{
    lemma_location_outcome_narrower, lemma_location_scan, lemma_location_scan_narrower, location_outcome,
    location_scan, location_settles, neighbours, sweep,
};
use crate::types::Location;
use crate::cleanup::{
    cleaned, cleanup_turn, cleanup_upto, lemma_cleanup_later_narrower, lemma_cleanup_upto_narrower,
    lemma_settled_values_contains, lemma_strike_all_absent, settled_values, strike_all,
};
use crate::solver::{
    all_applicable, check_upto, lemma_check_upto_flag, lemma_check_upto_len, lemma_round_narrower,
    lemma_select_contains, lemma_select_len, play, select,
    round, stuck,
};
use crate::narrowing::{house_narrower, lemma_narrower_allows, lemma_narrower_well_formed, lemma_street_size, narrower, street_size, well_formed};
use crate::puzzle::{puzzle_clues, starting_street};
use crate::repeat::{
    adj_before, lemma_adjacent_entries, ordered_fit, lemma_adjacent_entry_allows, lemma_adjacent_rescan,
    lemma_adjacent_scan_pair_only, lemma_ordered_entries, lemma_ordered_prefix, lemma_ordered_rescan,
    lemma_ordered_scan_pair_only, lemma_settle_pair_only, lemma_settle_twice, ordered_pair_count,
    adjacent_pair_count, lemma_ordered_count, lemma_adjacent_count,
};
use crate::location::adjacent_scan;
use crate::location::{lemma_settle_pairing_narrower, ordered_scan, settle_pairing};
use crate::solutions::{
    admits, house_admits, lemma_cleanup_keeps, lemma_direct_keeps, lemma_location_keeps, lemma_play_keeps,
    lemma_start_admits, numbered_in_order, satisfies, satisfies_all,
    valid_assignment, Assignment,
};

verus! {

/// Deleting a trait from a house takes away that trait and nothing else.
pub proof fn law_delete_removes_only_that_trait(h: HouseLists, t: Trait, x: Trait)
    requires
        h.len() == 6,
    ensures
        allows(strike(h, t), x) <==> (allows(h, x) && x != t),
{
    lemma_strike_has(h, t, x);
}

/// Deleting the same trait twice is deleting it once.
pub proof fn law_delete_twice_is_once(h: HouseLists, t: Trait)
    requires
        h.len() == 6,
    ensures
        strike(strike(h, t), t) == strike(h, t),
{
    lemma_strike_has(h, t, t);
    lemma_strike_absent(strike(h, t), t);
}

/// Keeping only a trait leaves, in its category, that trait if it was
/// allowed and nothing else, and leaves the other categories alone.
pub proof fn law_keep_only_that_trait(h: HouseLists, t: Trait, x: Trait)
    requires
        h.len() == 6,
    ensures
        allows(narrow(h, t), x) <==> (if category(x) == category(t) { allows(h, x) && x == t } else { allows(h, x) }),
{
    lemma_narrow_has(h, t, x);
}

/// Deleting two traits from a house gives the same house in either order.
pub proof fn law_delete_in_either_order(h: HouseLists, a: Trait, b: Trait)
    requires
        h.len() == 6,
    ensures
        strike(strike(h, a), b) == strike(strike(h, b), a),
{
    lemma_strike_commute(h, a, b);
}

/// Keeping only a trait twice is keeping it once.
pub proof fn law_keep_twice_is_once(h: HouseLists, t: Trait)
    requires
        h.len() == 6,
    ensures
        narrow(narrow(h, t), t) == narrow(h, t),
{
    lemma_narrow_twice(h, t);
}

/// Checking the same direct constraint a second time changes nothing and
/// gives the same answer, unless its traits are two different values of one
/// category (then a settled house keeps only the second and loses the first).
pub proof fn law_direct_check_twice(hs: Street, t1: Trait, t2: Trait)
    requires
        well_formed(hs),
        category(t1) != category(t2) || t1 == t2,
    ensures
        direct_settles(direct_outcome(hs, t1, t2), t1, t2) == direct_settles(hs, t1, t2),
        direct_outcome(direct_outcome(hs, t1, t2), t1, t2) == direct_outcome(hs, t1, t2),
{
    let h1s = direct_outcome(hs, t1, t2);
    let settles = direct_settles(hs, t1, t2);
    assert forall|i: int| 0 <= i < hs.len() implies #[trigger] fits(h1s[i], t1, t2) == fits(hs[i], t1, t2) by {
        let h = hs[i];
        assert(h.len() == 6);
        if fits(h, t1, t2) && settles {
            lemma_narrow_has(h, t1, t1);
            lemma_narrow_has(h, t1, t2);
            lemma_narrow_has(narrow(h, t1), t2, t1);
            lemma_narrow_has(narrow(h, t1), t2, t2);
        } else if !fits(h, t1, t2) {
            lemma_first_pass_settled(h, t1, t2);
        }
    }
    assert(direct_settles(h1s, t1, t2) == settles) by {
        if settles {
            let j = choose|j: int| sole_fit(hs, t1, t2, j);
            assert(fits(h1s[j], t1, t2) == fits(hs[j], t1, t2));
            assert forall|i: int| 0 <= i < hs.len() && i != j implies !fits(#[trigger] h1s[i], t1, t2) by {
                assert(fits(h1s[i], t1, t2) == fits(hs[i], t1, t2));
            }
            assert(sole_fit(h1s, t1, t2, j));
        }
        if direct_settles(h1s, t1, t2) {
            let j = choose|j: int| sole_fit(h1s, t1, t2, j);
            assert(fits(h1s[j], t1, t2) == fits(hs[j], t1, t2));
            assert forall|i: int| 0 <= i < hs.len() && i != j implies !fits(#[trigger] hs[i], t1, t2) by {
                assert(fits(h1s[i], t1, t2) == fits(hs[i], t1, t2));
            }
            assert(sole_fit(hs, t1, t2, j));
        }
    }
    let h2s = direct_outcome(h1s, t1, t2);
    assert forall|i: int| 0 <= i < hs.len() implies #[trigger] h2s[i] == h1s[i] by {
        let h = hs[i];
        assert(h.len() == 6);
        if fits(h, t1, t2) && settles {
            let c1 = category(t1);
            let c2 = category(t2);
            lemma_only_twice(h[c1], t1);
            lemma_only_twice(h[c2], t2);
            lemma_only_twice(only(h[c1], t1), t1);
            assert(h2s[i] =~= h1s[i]);
        } else if !fits(h, t1, t2) {
            lemma_first_pass_settled(h, t1, t2);
        }
    }
    assert(h2s =~= h1s);
}

/// Once a direct constraint is settled, no house but the one that fits
/// still allows either of its traits.
pub proof fn law_settled_pair_lives_in_one_house(hs: Street, t1: Trait, t2: Trait, j: int, i: int)
    requires
        well_formed(hs),
        sole_fit(hs, t1, t2, j),
        0 <= i < hs.len(),
        i != j,
    ensures
        direct_settles(hs, t1, t2),
        !allows(direct_outcome(hs, t1, t2)[i], t1),
        !allows(direct_outcome(hs, t1, t2)[i], t2),
{
    let h = hs[i];
    assert(!fits(h, t1, t2));
    lemma_strike_has(h, t1, t1);
    lemma_strike_has(strike(h, t1), t2, t1);
    lemma_strike_has(strike(h, t1), t2, t2);
}

/// Once a location constraint is settled on its one pairing of houses `a`
/// and `a + 1`, all other occurrences of both traits are struck: no house but
/// `a` allows the pairing's left trait, and no house but `a + 1` its right
/// trait.
pub proof fn law_settled_pairing_strikes_elsewhere(hs: Street, c: LocationConstraint, i: int)
    requires
        well_formed(hs),
        c.location != Location::NextTo ==> hs.len() >= 1,
        location_settles(hs, c),
        0 <= i < hs.len(),
    ensures
        ({
            let e = location_scan(hs, c).1[0];
            let out = location_outcome(hs, c);
            &&& i != e.0 ==> !allows(out[i], e.2)
            &&& i != e.1 ==> !allows(out[i], e.3)
        }),
{
    lemma_location_scan(hs, c);
    lemma_location_scan_narrower(hs, c);
    let scan = location_scan(hs, c);
    let s = scan.0;
    let e = scan.1[0];
    let n = hs.len();
    lemma_narrower_well_formed(s, hs);
    assert(neighbours(e, n as int));
    let t = sweep(s, e.0, e.1, e.2, e.3, n as int);
    let h = s[i];
    assert(h.len() == 6);
    let h1 = if i != e.0 { strike(h, e.2) } else { h };
    lemma_strike_has(h, e.2, e.2);
    lemma_strike_has(h, e.2, e.3);
    lemma_strike_has(h1, e.3, e.2);
    lemma_strike_has(h1, e.3, e.3);
    assert(t[i].len() == 6);
    lemma_narrow_has(t[i], e.2, e.2);
    lemma_narrow_has(t[i], e.2, e.3);
    lemma_narrow_has(t[i], e.3, e.2);
    lemma_narrow_has(t[i], e.3, e.3);
}

/// Checking the same location constraint a second time changes nothing and
/// gives the same answer, when its two traits differ.
pub proof fn law_location_check_twice(hs: Street, c: LocationConstraint)
    requires
        well_formed(hs),
        c.location != Location::NextTo ==> hs.len() >= 1,
        c.trait_1 != c.trait_2,
    ensures
        location_settles(location_outcome(hs, c), c) == location_settles(hs, c),
        location_outcome(location_outcome(hs, c), c) == location_outcome(hs, c),
{
    let n = hs.len() as int;
    let scan = location_scan(hs, c);
    let s = scan.0;
    lemma_location_scan(hs, c);
    lemma_location_scan_narrower(hs, c);
    lemma_narrower_well_formed(s, hs);
    let ordered = c.location != Location::NextTo;
    let tl = if c.location == Location::Left { c.trait_1 } else { c.trait_2 };
    let tr = if c.location == Location::Left { c.trait_2 } else { c.trait_1 };
    if ordered {
        assert(scan == ordered_scan(hs, tl, tr, (n - 1) as nat));
    } else {
        assert(s == adj_before(hs, c.trait_1, c.trait_2, n));
    }
    if scan.1.len() != 1 {
        if ordered {
            lemma_ordered_rescan(hs, tl, tr, (n - 1) as nat);
        } else {
            lemma_adjacent_rescan(hs, c.trait_1, c.trait_2, n as nat);
        }
        assert(location_scan(s, c) == scan);
    } else {
        let e = scan.1[0];
        assert(scan.1.contains(e)) by {
            assert(scan.1[0] == e);
        }
        if ordered {
            lemma_ordered_entries(hs, tl, tr, (n - 1) as nat);
            lemma_ordered_prefix(hs, tl, tr, (n - 1) as nat);
            assert(ordered_fit(hs, tl, tr, e.0));
        } else {
            lemma_adjacent_entries(hs, c.trait_1, c.trait_2, n as nat);
            lemma_adjacent_entry_allows(hs, c.trait_1, c.trait_2, e);
        }
        assert(neighbours(e, n));
        lemma_settle_pair_only(s, e);
        let o = settle_pairing(s, e);
        lemma_settle_twice(s, e);
        lemma_settle_pairing_narrower(s, e);
        if ordered {
            lemma_ordered_scan_pair_only(o, e, (n - 1) as nat);
            assert(location_scan(o, c) == (o, seq![e]));
        } else {
            lemma_adjacent_scan_pair_only(o, c.trait_1, c.trait_2, e, n as nat);
            assert(location_scan(o, c) == (o, seq![e]));
        }
    }
}

/// Checking a constraint, cleaning up, and playing a round only ever strike
/// possible values: every list afterwards is what is left of the same list
/// before.
pub proof fn law_checks_only_strike(hs: Street, cs: Seq<Constraint>, t1: Trait, t2: Trait, c: LocationConstraint)
    requires
        well_formed(hs),
        c.location != Location::NextTo ==> hs.len() >= 1,
        all_applicable(cs, hs.len() as int),
    ensures
        narrower(direct_outcome(hs, t1, t2), hs),
        narrower(location_outcome(hs, c), hs),
        narrower(cleaned(hs), hs),
        narrower(round(cs, hs).1, hs),
{
    lemma_direct_outcome_narrower(hs, t1, t2);
    lemma_location_outcome_narrower(hs, c);
    lemma_cleanup_upto_narrower(hs, hs.len());
    lemma_round_narrower(cs, hs);
}

/// Propagation is sound: checking a constraint never rules out an answer
/// that meets it, and cleaning up never rules out any proper answer.
pub proof fn law_checks_keep_answers(hs: Street, sol: Assignment, c: Constraint)
    requires
        well_formed(hs),
        valid_assignment(sol, hs.len() as int),
        admits(hs, sol),
        satisfies(sol, c),
    ensures
        c matches Constraint::DirectConstraint(d) ==> admits(direct_outcome(hs, d.trait_1, d.trait_2), sol),
        c matches Constraint::LocationConstraint(l) ==> admits(location_outcome(hs, l), sol),
        admits(cleaned(hs), sol),
{
    match c {
        Constraint::DirectConstraint(d) => lemma_direct_keeps(hs, sol, d.trait_1, d.trait_2),
        Constraint::LocationConstraint(l) => lemma_location_keeps(hs, sol, l),
    }
    lemma_cleanup_keeps(hs, sol, hs.len());
}

/// However many rounds are played, a proper answer that meets every
/// constraint and is allowed at the start is still allowed.
pub proof fn law_rounds_keep_answers(cs: Seq<Constraint>, hs: Street, sol: Assignment, k: nat)
    requires
        well_formed(hs),
        valid_assignment(sol, hs.len() as int),
        admits(hs, sol),
        all_applicable(cs, hs.len() as int),
        satisfies_all(sol, cs),
    ensures
        admits(play(cs, hs, k).1, sol),
{
    lemma_play_keeps(cs, hs, sol, k);
}

/// The starting street rules nothing out, and solving the puzzle from it
/// never rules out an answer (houses numbered 1 to 5 from the left) that
/// meets every clue.
pub proof fn law_puzzle_keeps_its_answers(sol: Assignment, k: nat)
    requires
        valid_assignment(sol, 5),
        numbered_in_order(sol),
    ensures
        admits(starting_street(), sol),
        satisfies_all(sol, puzzle_clues()) ==> admits(play(puzzle_clues(), starting_street(), k).1, sol),
{
    lemma_start_admits(sol);
    let hs = starting_street();
    assert(well_formed(hs));
    if satisfies_all(sol, puzzle_clues()) {
        assert(all_applicable(puzzle_clues(), 5));
        lemma_play_keeps(puzzle_clues(), hs, sol, k);
    }
}

/// Once every list of every house holds a single value, an answer the street
/// still allows is that street.
pub proof fn law_single_values_are_the_answer(hs: Street, sol: Assignment, i: int, k: int)
    requires
        admits(hs, sol),
        0 <= i < hs.len(),
        0 <= k < 6,
        hs[i][k].len() == 1,
    ensures
        sol[i][k] == hs[i][k][0],
{
    assert(house_admits(hs[i], sol[i]));
    assert(hs[i][k].contains(sol[i][k]));
}

/// A round either changes nothing (and then no round ever will), or it
/// settles a constraint or strikes a value: the number of open constraints
/// plus possible values goes down.
pub proof fn law_round_progress(cs: Seq<Constraint>, hs: Street)
    requires
        well_formed(hs),
        all_applicable(cs, hs.len() as int),
    ensures
        stuck(cs, hs) || street_size(round(cs, hs).1) + round(cs, hs).0.len() < street_size(hs) + cs.len(),
{
    let checked = check_upto(hs, cs, cs.len());
    lemma_check_upto_len(hs, cs, cs.len());
    lemma_select_len(cs, checked.1);
    lemma_round_narrower(cs, hs);
    lemma_street_size(round(cs, hs).1, hs);
    if street_size(round(cs, hs).1) + round(cs, hs).0.len() >= street_size(hs) + cs.len() {
        assert(round(cs, hs).2 =~= Seq::<Constraint>::empty());
    }
}

/// Every constraint checked in a round is either still open afterwards or
/// reported settled.
pub proof fn law_round_keeps_or_settles(cs: Seq<Constraint>, hs: Street)
    requires
        well_formed(hs),
        all_applicable(cs, hs.len() as int),
    ensures
        round(cs, hs).0.len() + round(cs, hs).2.len() == cs.len(),
{
    let checked = check_upto(hs, cs, cs.len());
    lemma_check_upto_len(hs, cs, cs.len());
    lemma_select_len(cs, checked.1);
}

/// A state on which a round changes nothing stays as it is forever.
pub proof fn law_stuck_stays(cs: Seq<Constraint>, hs: Street, k: nat)
    requires
        stuck(cs, hs),
    ensures
        play(cs, hs, k) == (cs, hs),
    decreases k,
{
    if k > 0 {
        law_stuck_stays(cs, hs, (k - 1) as nat);
    }
}

/// In its category, the house allows `t` and nothing else (or nothing at all).
pub open spec fn only_value(h: HouseLists, t: Trait) -> bool {
    forall|y: Trait| category(y) == category(t) && #[trigger] allows(h, y) ==> y == t
}

/// What a direct check does, stated over the houses alone. It settles the
/// constraint exactly when one house allows both traits. A house that does
/// not allow both loses both; when the check does not settle, a house that
/// allows both is left as it was; when it settles, the one house that allows
/// both keeps, in their categories, nothing but the two traits. Categories of
/// neither trait are never touched.
pub proof fn law_direct_check_does(hs: Street, t1: Trait, t2: Trait)
    requires
        well_formed(hs),
    ensures
        direct_settles(hs, t1, t2) <==> exists|j: int|
            0 <= j < hs.len() && allows(#[trigger] hs[j], t1) && allows(hs[j], t2) && forall|i: int|
                0 <= i < hs.len() && i != j ==> !(allows(#[trigger] hs[i], t1) && allows(hs[i], t2)),
        direct_outcome(hs, t1, t2).len() == hs.len(),
        forall|i: int|
            0 <= i < hs.len() && !(allows(#[trigger] hs[i], t1) && allows(hs[i], t2)) ==> !allows(
                direct_outcome(hs, t1, t2)[i],
                t1,
            ) && !allows(direct_outcome(hs, t1, t2)[i], t2),
        forall|i: int|
            0 <= i < hs.len() && allows(#[trigger] hs[i], t1) && allows(hs[i], t2) && !direct_settles(hs, t1, t2)
                ==> direct_outcome(hs, t1, t2)[i] == hs[i],
        forall|j: int|
            0 <= j < hs.len() && allows(#[trigger] hs[j], t1) && allows(hs[j], t2) && direct_settles(hs, t1, t2)
                ==> {
                &&& forall|y: Trait|
                    (category(y) == category(t1) || category(y) == category(t2)) && #[trigger] allows(
                        direct_outcome(hs, t1, t2)[j],
                        y,
                    ) ==> y == t1 || y == t2
                &&& category(t1) != category(t2) ==> allows(direct_outcome(hs, t1, t2)[j], t1) && allows(
                    direct_outcome(hs, t1, t2)[j],
                    t2,
                )
            },
        forall|i: int, k: int|
            0 <= i < hs.len() && 0 <= k < 6 && k != category(t1) && k != category(t2) ==> #[trigger] direct_outcome(
                hs,
                t1,
                t2,
            )[i][k] == hs[i][k],
{
    let out = direct_outcome(hs, t1, t2);
    assert forall|i: int|
        0 <= i < hs.len() && !(allows(#[trigger] hs[i], t1) && allows(hs[i], t2)) implies !allows(out[i], t1)
            && !allows(out[i], t2) by {
        lemma_first_pass_settled(hs[i], t1, t2);
    }
    assert forall|j: int|
        0 <= j < hs.len() && allows(#[trigger] hs[j], t1) && allows(hs[j], t2) && direct_settles(hs, t1, t2)
            implies {
            &&& forall|y: Trait|
                (category(y) == category(t1) || category(y) == category(t2)) && #[trigger] allows(out[j], y) ==> y
                    == t1 || y == t2
            &&& category(t1) != category(t2) ==> allows(out[j], t1) && allows(out[j], t2)
        } by {
        let h = hs[j];
        assert(h.len() == 6);
        assert(fits(h, t1, t2));
        assert(out[j] == narrow(narrow(h, t1), t2));
        assert forall|y: Trait|
            (category(y) == category(t1) || category(y) == category(t2)) && #[trigger] allows(out[j], y) implies y
                == t1 || y == t2 by {
            lemma_narrow_has(h, t1, y);
            lemma_narrow_has(narrow(h, t1), t2, y);
        }
        lemma_narrow_has(h, t1, t1);
        lemma_narrow_has(narrow(h, t1), t2, t1);
        lemma_narrow_has(h, t1, t2);
        lemma_narrow_has(narrow(h, t1), t2, t2);
    }
    assert forall|i: int, k: int|
        0 <= i < hs.len() && 0 <= k < 6 && k != category(t1) && k != category(t2) implies #[trigger] out[i][k]
            == hs[i][k] by {
    }
    if direct_settles(hs, t1, t2) {
        let j = choose|j: int| sole_fit(hs, t1, t2, j);
        assert(allows(hs[j], t1) && allows(hs[j], t2));
    }
    if exists|j: int|
        0 <= j < hs.len() && allows(#[trigger] hs[j], t1) && allows(hs[j], t2) && forall|i: int|
            0 <= i < hs.len() && i != j ==> !(allows(#[trigger] hs[i], t1) && allows(hs[i], t2)) {
        let j = choose|j: int|
            0 <= j < hs.len() && allows(#[trigger] hs[j], t1) && allows(hs[j], t2) && forall|i: int|
                0 <= i < hs.len() && i != j ==> !(allows(#[trigger] hs[i], t1) && allows(hs[i], t2));
        assert(sole_fit(hs, t1, t2, j));
    }
}

/// The clues, each written out as the puzzle states it, in the order the
/// solver checks them.
pub proof fn law_puzzle_clues_are_the_puzzle()
    ensures
        puzzle_clues().len() == 15,
        // The Brit lives in the red house.
        puzzle_clues()[0] == Constraint::DirectConstraint(DirectConstraint { trait_1: Trait::Nationality(Nationality::British), trait_2: Trait::Color(Color::Red), fulfilled: false }),
        // The Swede keeps dogs.
        puzzle_clues()[1] == Constraint::DirectConstraint(DirectConstraint { trait_1: Trait::Nationality(Nationality::Swedish), trait_2: Trait::Pet(Pet::Dog), fulfilled: false }),
        // The Dane drinks tea.
        puzzle_clues()[2] == Constraint::DirectConstraint(DirectConstraint { trait_1: Trait::Nationality(Nationality::Danish), trait_2: Trait::Drink(Drink::Tea), fulfilled: false }),
        // The German smokes Rothmanns.
        puzzle_clues()[3] == Constraint::DirectConstraint(DirectConstraint { trait_1: Trait::Nationality(Nationality::German), trait_2: Trait::Brand(Brand::Rothmanns), fulfilled: false }),
        // The owner of the green house drinks coffee.
        puzzle_clues()[4] == Constraint::DirectConstraint(DirectConstraint { trait_1: Trait::Color(Color::Green), trait_2: Trait::Drink(Drink::Coffee), fulfilled: false }),
        // The Winfield smoker drinks beer.
        puzzle_clues()[5] == Constraint::DirectConstraint(DirectConstraint { trait_1: Trait::Brand(Brand::Winfield), trait_2: Trait::Drink(Drink::Beer), fulfilled: false }),
        // The Norwegian lives in the first house.
        puzzle_clues()[6] == Constraint::DirectConstraint(DirectConstraint { trait_1: Trait::Nationality(Nationality::Norwegian), trait_2: Trait::Number(1), fulfilled: false }),
        // The Norwegian lives next to the blue house.
        puzzle_clues()[7] == Constraint::LocationConstraint(LocationConstraint { trait_1: Trait::Nationality(Nationality::Norwegian), trait_2: Trait::Color(Color::Blue), location: Location::NextTo, fulfilled: false }),
        // The owner of the yellow house smokes Dunhill.
        puzzle_clues()[8] == Constraint::DirectConstraint(DirectConstraint { trait_1: Trait::Color(Color::Yellow), trait_2: Trait::Brand(Brand::Dunhill), fulfilled: false }),
        // The Pall Mall smoker keeps birds.
        puzzle_clues()[9] == Constraint::DirectConstraint(DirectConstraint { trait_1: Trait::Brand(Brand::PallMall), trait_2: Trait::Pet(Pet::Bird), fulfilled: false }),
        // The man in the middle house drinks milk.
        puzzle_clues()[10] == Constraint::DirectConstraint(DirectConstraint { trait_1: Trait::Number(3), trait_2: Trait::Drink(Drink::Milk), fulfilled: false }),
        // The green house stands directly left of the white house.
        puzzle_clues()[11] == Constraint::LocationConstraint(LocationConstraint { trait_1: Trait::Color(Color::Green), trait_2: Trait::Color(Color::White), location: Location::Left, fulfilled: false }),
        // The Marlboro smoker lives next to the cat owner.
        puzzle_clues()[12] == Constraint::LocationConstraint(LocationConstraint { trait_1: Trait::Brand(Brand::Marlboro), trait_2: Trait::Pet(Pet::Cat), location: Location::NextTo, fulfilled: false }),
        // The Marlboro smoker lives next to the water drinker.
        puzzle_clues()[13] == Constraint::LocationConstraint(LocationConstraint { trait_1: Trait::Brand(Brand::Marlboro), trait_2: Trait::Drink(Drink::Water), location: Location::NextTo, fulfilled: false }),
        // The horse owner lives next to the Dunhill smoker.
        puzzle_clues()[14] == Constraint::LocationConstraint(LocationConstraint { trait_1: Trait::Pet(Pet::Horse), trait_2: Trait::Brand(Brand::Dunhill), location: Location::NextTo, fulfilled: false }),
{
}

/// The number of pairs of neighbouring houses of the street that may still
/// meet the location constraint: for "left of", house `i` allows `trait_1`
/// and house `i + 1` allows `trait_2`; for "right of", the other way round;
/// for "next to", either way.
pub open spec fn fitting_pairs(x: Street, c: LocationConstraint) -> nat {
    match c.location {
        Location::Left => ordered_pair_count(x, c.trait_1, c.trait_2, (x.len() - 1) as nat),
        Location::Right => ordered_pair_count(x, c.trait_2, c.trait_1, (x.len() - 1) as nat),
        Location::NextTo => adjacent_pair_count(x, c.trait_1, c.trait_2, x.len()),
    }
}

/// Houses `u` (for `trait_1`) and `v` (for `trait_2`) stand as the
/// constraint asks.
pub open spec fn placed_as(c: LocationConstraint, u: int, v: int) -> bool {
    match c.location {
        Location::Left => v == u + 1,
        Location::Right => u == v + 1,
        Location::NextTo => v == u + 1 || u == v + 1,
    }
}

/// What a location check does, stated over the houses alone: it settles the
/// constraint exactly when the street it leaves has exactly one pair of
/// neighbours that may meet it, and then the two houses of that pair keep,
/// in the traits' categories, nothing but the two traits.
pub proof fn law_location_check_does(hs: Street, c: LocationConstraint)
    requires
        well_formed(hs),
        c.location != Location::NextTo ==> hs.len() >= 1,
        c.trait_1 != c.trait_2,
    ensures
        location_outcome(hs, c).len() == hs.len(),
        location_settles(hs, c) == (fitting_pairs(location_outcome(hs, c), c) == 1),
        location_settles(hs, c) ==> forall|u: int, v: int|
            0 <= u < hs.len() && 0 <= v < hs.len() && placed_as(c, u, v) && #[trigger] allows(
                location_outcome(hs, c)[u],
                c.trait_1,
            ) && #[trigger] allows(location_outcome(hs, c)[v], c.trait_2) ==> only_value(
                location_outcome(hs, c)[u],
                c.trait_1,
            ) && only_value(location_outcome(hs, c)[v], c.trait_2),
{
    let n = hs.len() as int;
    let scan = location_scan(hs, c);
    let s = scan.0;
    lemma_location_scan(hs, c);
    lemma_location_scan_narrower(hs, c);
    lemma_narrower_well_formed(s, hs);
    lemma_location_outcome_narrower(hs, c);
    let ordered = c.location != Location::NextTo;
    let tl = if c.location == Location::Left { c.trait_1 } else { c.trait_2 };
    let tr = if c.location == Location::Left { c.trait_2 } else { c.trait_1 };
    if ordered {
        assert(scan == ordered_scan(hs, tl, tr, (n - 1) as nat));
    } else {
        assert(s == adj_before(hs, c.trait_1, c.trait_2, n));
    }
    if scan.1.len() != 1 {
        if ordered {
            assert forall|j: nat| j <= (n - 1) as nat implies (#[trigger] ordered_scan(s, tl, tr, j)).0 == s by {
                lemma_ordered_rescan(hs, tl, tr, j);
            }
            lemma_ordered_rescan(hs, tl, tr, (n - 1) as nat);
            lemma_ordered_count(s, tl, tr, (n - 1) as nat);
        } else {
            assert forall|j: nat| j <= n as nat implies (#[trigger] adjacent_scan(s, c.trait_1, c.trait_2, j)).0 == s by {
                lemma_adjacent_rescan(hs, c.trait_1, c.trait_2, j);
            }
            lemma_adjacent_rescan(hs, c.trait_1, c.trait_2, n as nat);
            lemma_adjacent_count(s, c.trait_1, c.trait_2, n as nat);
        }
    } else {
        let e = scan.1[0];
        assert(scan.1.contains(e)) by {
            assert(scan.1[0] == e);
        }
        if ordered {
            lemma_ordered_entries(hs, tl, tr, (n - 1) as nat);
            lemma_ordered_prefix(hs, tl, tr, (n - 1) as nat);
            assert(ordered_fit(hs, tl, tr, e.0));
        } else {
            lemma_adjacent_entries(hs, c.trait_1, c.trait_2, n as nat);
            lemma_adjacent_entry_allows(hs, c.trait_1, c.trait_2, e);
        }
        assert(neighbours(e, n));
        lemma_settle_pair_only(s, e);
        let o = settle_pairing(s, e);
        assert(o == location_outcome(hs, c));
        if ordered {
            assert forall|j: nat| j <= (n - 1) as nat implies (#[trigger] ordered_scan(o, tl, tr, j)).0 == o by {
                lemma_ordered_scan_pair_only(o, e, j);
            }
            lemma_ordered_scan_pair_only(o, e, (n - 1) as nat);
            lemma_ordered_count(o, tl, tr, (n - 1) as nat);
        } else {
            assert forall|j: nat| j <= n as nat implies (#[trigger] adjacent_scan(o, c.trait_1, c.trait_2, j)).0 == o by {
                lemma_adjacent_scan_pair_only(o, c.trait_1, c.trait_2, e, j);
            }
            lemma_adjacent_scan_pair_only(o, c.trait_1, c.trait_2, e, n as nat);
            lemma_adjacent_count(o, c.trait_1, c.trait_2, n as nat);
        }
        // The houses of the pairing keep only its traits.
        let t = sweep(s, e.0, e.1, e.2, e.3, n);
        assert(t[e.0].len() == 6 && t[e.1].len() == 6);
        assert(o[e.0] == narrow(t[e.0], e.2));
        assert(o[e.1] == narrow(t[e.1], e.3));
        assert(only_value(o[e.0], e.2)) by {
            assert forall|y: Trait| category(y) == category(e.2) && #[trigger] allows(o[e.0], y) implies y == e.2 by {
                lemma_narrow_has(t[e.0], e.2, y);
            }
        }
        assert(only_value(o[e.1], e.3)) by {
            assert forall|y: Trait| category(y) == category(e.3) && #[trigger] allows(o[e.1], y) implies y == e.3 by {
                lemma_narrow_has(t[e.1], e.3, y);
            }
        }
        assert((e.2 == c.trait_1 && e.3 == c.trait_2) || (e.2 == c.trait_2 && e.3 == c.trait_1));
    }
}

/// The value house `i` holds alone in list `k` when its turn comes.
pub open spec fn value_at_turn(hs: Street, i: int, k: int) -> Trait {
    cleanup_upto(hs, i as nat)[i][k][0]
}

/// What the cleanup does: every house, the last one included, spreads the
/// values it is settled on when its turn comes (a color, nationality, brand,
/// drink or pet list holding one value): afterwards no other house allows
/// them. In particular no other house allows a value the first house was
/// settled on before the cleanup, nor a value the last house is settled on
/// after it.
pub proof fn law_cleanup_spreads(hs: Street)
    requires
        well_formed(hs),
    ensures
        cleaned(hs).len() == hs.len(),
        forall|i: int, k: int, j: int|
            0 <= i < hs.len() && 0 <= k < 5 && 0 <= j < hs.len() && i != j && (#[trigger] cleanup_upto(
                hs,
                i as nat,
            )[i][k]).len() == 1 ==> !allows(#[trigger] cleaned(hs)[j], value_at_turn(hs, i, k)),
        forall|k: int, j: int|
            0 <= k < 5 && 0 < j < hs.len() && (#[trigger] hs[0][k]).len() == 1 ==> !allows(
                #[trigger] cleaned(hs)[j],
                hs[0][k][0],
            ),
        forall|k: int, j: int|
            0 <= k < 5 && 0 <= j && j + 1 < hs.len() && (#[trigger] cleaned(hs)[hs.len() - 1][k]).len() == 1
                ==> !allows(#[trigger] cleaned(hs)[j], cleaned(hs)[hs.len() - 1][k][0]),
{
    let n = hs.len();
    let fin = cleaned(hs);
    lemma_cleanup_upto_narrower(hs, n);
    assert forall|i: int, k: int, j: int|
        0 <= i < n && 0 <= k < 5 && 0 <= j < n && i != j && (#[trigger] cleanup_upto(hs, i as nat)[i][k]).len()
            == 1 implies !allows(#[trigger] fin[j], value_at_turn(hs, i, k)) by {
        let s = cleanup_upto(hs, i as nat);
        lemma_cleanup_upto_narrower(hs, i as nat);
        lemma_narrower_well_formed(s, hs);
        assert(s[i].len() == 6);
        lemma_settled_values_contains(s[i], k);
        let vals = settled_values(s[i]);
        let m = choose|m: int| 0 <= m < vals.len() && vals[m] == s[i][k][0];
        assert(s[j].len() == 6);
        lemma_strike_all_absent(s[j], vals, m);
        let after = cleanup_upto(hs, (i + 1) as nat);
        assert(after == cleanup_turn(s, i));
        assert(after[j] == strike_all(s[j], vals));
        lemma_cleanup_later_narrower(hs, (i + 1) as nat, n);
        assert(house_narrower(fin[j], after[j]));
        if allows(fin[j], vals[m]) {
            lemma_narrower_allows(fin[j], after[j], vals[m]);
        }
    }
    assert forall|k: int, j: int|
        0 <= k < 5 && 0 < j < n && (#[trigger] hs[0][k]).len() == 1 implies !allows(#[trigger] fin[j], hs[0][k][0]) by {
        assert(cleanup_upto(hs, 0) == hs);
        assert(cleanup_upto(hs, 0nat)[0][k].len() == 1);
        assert(!allows(fin[j], value_at_turn(hs, 0, k)));
    }
    if n > 0 {
        let last = n - 1;
        let s = cleanup_upto(hs, last as nat);
        assert(fin == cleanup_turn(s, last));
        assert(fin[last] == s[last]);
        assert forall|k: int, j: int|
            0 <= k < 5 && 0 <= j && j + 1 < n && (#[trigger] fin[n - 1][k]).len() == 1 implies !allows(
                #[trigger] fin[j],
                fin[n - 1][k][0],
            ) by {
            assert(cleanup_upto(hs, last as nat)[last][k].len() == 1);
            assert(!allows(fin[j], value_at_turn(hs, last, k)));
        }
    }
}

/// Checking one constraint: the street it leaves, and whether it settled.
pub open spec fn checked_once(hs: Street, c: Constraint) -> (Street, bool) {
    match c {
        Constraint::DirectConstraint(d) => (
            direct_outcome(hs, d.trait_1, d.trait_2),
            direct_settles(hs, d.trait_1, d.trait_2),
        ),
        Constraint::LocationConstraint(l) => (location_outcome(hs, l), location_settles(hs, l)),
    }
}

/// A round checks every open constraint, first to last, each on the street
/// the ones before it left, and ends with a cleanup of the street the last
/// check left.
pub proof fn law_round_checks_every_constraint(cs: Seq<Constraint>, hs: Street)
    requires
        well_formed(hs),
        all_applicable(cs, hs.len() as int),
    ensures
        check_upto(hs, cs, 0).0 == hs,
        forall|k: int|
            0 <= k < cs.len() ==> check_upto(hs, cs, (k + 1) as nat).0 == checked_once(
                #[trigger] check_upto(hs, cs, k as nat).0,
                cs[k],
            ).0,
        check_upto(hs, cs, cs.len()).1.len() == cs.len(),
        forall|k: int|
            0 <= k < cs.len() ==> check_upto(hs, cs, cs.len()).1[k] == checked_once(
                #[trigger] check_upto(hs, cs, k as nat).0,
                cs[k],
            ).1,
        round(cs, hs).1 == cleaned(check_upto(hs, cs, cs.len()).0),
{
    let m = cs.len();
    let flags = check_upto(hs, cs, m).1;
    lemma_check_upto_len(hs, cs, m);
    assert forall|k: int|
        0 <= k < m implies flags[k] == checked_once(#[trigger] check_upto(hs, cs, k as nat).0, cs[k]).1 by {
        lemma_check_upto_flag(hs, cs, k as nat, m);
        lemma_check_upto_len(hs, cs, k as nat);
    }
}

/// Entry `j` of `out` is an entry `cs[k]` whose flag is `keep`.
pub open spec fn drawn_at(out: Seq<Constraint>, cs: Seq<Constraint>, flags: Seq<bool>, keep: bool, j: int) -> bool {
    exists|k: int| 0 <= k < cs.len() && flags[k] == keep && #[trigger] cs[k] == out[j]
}

/// Every entry of `out` is an entry `cs[k]` whose flag is `keep`.
pub open spec fn drawn_from(out: Seq<Constraint>, cs: Seq<Constraint>, flags: Seq<bool>, keep: bool) -> bool {
    forall|j: int| 0 <= j < out.len() ==> #[trigger] drawn_at(out, cs, flags, keep, j)
}

/// What `select` keeps is drawn from the constraints with the chosen flag.
proof fn lemma_select_drawn(cs: Seq<Constraint>, settled: Seq<bool>, keep: bool)
    requires
        settled.len() == cs.len(),
    ensures
        drawn_from(select(cs, settled, keep), cs, settled, keep),
{
    lemma_select_contains(cs, settled, keep);
    let out = select(cs, settled, keep);
    assert forall|j: int| 0 <= j < out.len() implies #[trigger] drawn_at(out, cs, settled, keep, j) by {
        let t = out[j];
        let k = choose|k: int| 0 <= k < cs.len() && settled[k] == keep && #[trigger] cs[k] == #[trigger] out[j];
        assert(cs[k] == t);
    }
}

/// A round reports a constraint settled exactly when its own check in the
/// round settled it, and leaves it open otherwise.
pub proof fn law_round_reports_what_settled(cs: Seq<Constraint>, hs: Street)
    requires
        well_formed(hs),
        all_applicable(cs, hs.len() as int),
    ensures
        forall|k: int|
            0 <= k < cs.len() ==> (check_upto(hs, cs, cs.len()).1[k] ==> round(cs, hs).2.contains(#[trigger] cs[k]))
                && (!check_upto(hs, cs, cs.len()).1[k] ==> round(cs, hs).0.contains(cs[k])),
        drawn_from(round(cs, hs).2, cs, check_upto(hs, cs, cs.len()).1, true),
        drawn_from(round(cs, hs).0, cs, check_upto(hs, cs, cs.len()).1, false),
        round(cs, hs).0.len() + round(cs, hs).2.len() == cs.len(),
{
    let f = check_upto(hs, cs, cs.len()).1;
    lemma_check_upto_len(hs, cs, cs.len());
    lemma_select_contains(cs, f, true);
    lemma_select_contains(cs, f, false);
    lemma_select_len(cs, f);
    assert forall|k: int| 0 <= k < cs.len() implies (f[k] ==> round(cs, hs).2.contains(#[trigger] cs[k])) && (!f[k]
        ==> round(cs, hs).0.contains(cs[k])) by {
        if f[k] {
            assert(select(cs, f, true).contains(cs[k]));
        } else {
            assert(select(cs, f, false).contains(cs[k]));
        }
    }
    lemma_select_drawn(cs, f, true);
    lemma_select_drawn(cs, f, false);
}

} // verus!

use lib::cleanup::cleanup;
use lib::direct::check_direct_constraint;
use lib::house_ops::{contains, delete_all_except, delete_trait};
use lib::location::check_location_constraint;
use lib::puzzle::{fill_vectors, init_houses};
use lib::solver::{solve, solve_round};
use lib::types::{
    Brand, Color, Constraint, DirectConstraint, Drink, House, Location, LocationConstraint, Nationality,
    Pet, Trait,
};

fn house(colors: Vec<Trait>, pets: Vec<Trait>, number: i32) -> House {
    House {
        color_vec: colors,
        nationality_vec: vec![],
        brand_vec: vec![],
        drink_vec: vec![],
        pet_vec: pets,
        number_vec: vec![Trait::Number(number)],
    }
}

fn red() -> Trait {
    Trait::Color(Color::Red)
}
fn green() -> Trait {
    Trait::Color(Color::Green)
}
fn white() -> Trait {
    Trait::Color(Color::White)
}
fn dog() -> Trait {
    Trait::Pet(Pet::Dog)
}
fn cat() -> Trait {
    Trait::Pet(Pet::Cat)
}

fn direct(t1: Trait, t2: Trait) -> DirectConstraint {
    DirectConstraint { trait_1: t1, trait_2: t2, fulfilled: false }
}

fn located(t1: Trait, t2: Trait, location: Location) -> LocationConstraint {
    LocationConstraint { trait_1: t1, trait_2: t2, location, fulfilled: false }
}

#[test]
fn contains_looks_in_the_category_of_the_trait() {
    let h = house(vec![red(), green()], vec![dog()], 1);
    assert!(contains(&h, &red()));
    assert!(contains(&h, &dog()));
    assert!(!contains(&h, &white()));
    assert!(!contains(&h, &cat()));
    assert!(contains(&h, &Trait::Number(1)));
    assert!(!contains(&h, &Trait::Number(2)));
}

#[test]
fn delete_trait_removes_every_occurrence_and_keeps_order() {
    let mut h = house(vec![red(), green(), red(), white()], vec![dog()], 1);
    delete_trait(&mut h, red());
    assert_eq!(h.color_vec, vec![green(), white()]);
    assert_eq!(h.pet_vec, vec![dog()]);
    // Deleting what is not there changes nothing, deleting twice is deleting once.
    delete_trait(&mut h, red());
    assert_eq!(h.color_vec, vec![green(), white()]);
    delete_trait(&mut h, cat());
    assert_eq!(h.pet_vec, vec![dog()]);
}

#[test]
fn delete_all_except_keeps_only_that_trait() {
    let mut h = house(vec![red(), green(), white()], vec![dog(), cat()], 2);
    delete_all_except(&mut h, green());
    assert_eq!(h.color_vec, vec![green()]);
    assert_eq!(h.pet_vec, vec![dog(), cat()]);
    delete_all_except(&mut h, Trait::Pet(Pet::Fish));
    assert_eq!(h.pet_vec, Vec::<Trait>::new());
}

#[test]
fn init_houses_lists_every_value() {
    let houses = init_houses();
    assert_eq!(houses.len(), 5);
    for (i, h) in houses.iter().enumerate() {
        assert_eq!(h.color_vec.len(), 5);
        assert_eq!(h.nationality_vec.len(), 5);
        assert_eq!(h.brand_vec.len(), 5);
        assert_eq!(h.drink_vec.len(), 5);
        assert_eq!(h.pet_vec.len(), 5);
        assert_eq!(h.number_vec, vec![Trait::Number(i as i32 + 1)]);
        assert_eq!(h.color_vec[0], Trait::Color(Color::Blue));
        assert_eq!(h.pet_vec[4], Trait::Pet(Pet::Horse));
    }
}

#[test]
fn fill_vectors_holds_the_clues_in_order() {
    let clues = fill_vectors();
    assert_eq!(clues.len(), 15);
    assert_eq!(
        clues[0],
        Constraint::DirectConstraint(direct(Trait::Nationality(Nationality::British), red()))
    );
    assert_eq!(
        clues[7],
        Constraint::LocationConstraint(located(
            Trait::Nationality(Nationality::Norwegian),
            Trait::Color(Color::Blue),
            Location::NextTo
        ))
    );
    assert_eq!(
        clues[11],
        Constraint::LocationConstraint(located(green(), white(), Location::Left))
    );
    assert_eq!(
        clues[14],
        Constraint::LocationConstraint(located(
            Trait::Pet(Pet::Horse),
            Trait::Brand(Brand::Dunhill),
            Location::NextTo
        ))
    );
}

#[test]
fn direct_constraint_settles_when_one_house_fits() {
    let mut houses = vec![
        house(vec![red(), green()], vec![cat()], 1),
        house(vec![red(), white()], vec![dog(), cat()], 2),
        house(vec![green()], vec![dog()], 3),
    ];
    assert!(check_direct_constraint(&mut houses, direct(red(), dog())));
    // Houses that cannot hold both lose both; the fitting one keeps only them.
    assert_eq!(houses[0].color_vec, vec![green()]);
    assert_eq!(houses[0].pet_vec, vec![cat()]);
    assert_eq!(houses[1].color_vec, vec![red()]);
    assert_eq!(houses[1].pet_vec, vec![dog()]);
    assert_eq!(houses[2].color_vec, vec![green()]);
    assert_eq!(houses[2].pet_vec, Vec::<Trait>::new());
}

#[test]
fn direct_constraint_stays_open_with_two_candidates() {
    let mut houses = vec![
        house(vec![red(), green()], vec![dog(), cat()], 1),
        house(vec![red(), white()], vec![dog(), cat()], 2),
        house(vec![green()], vec![dog()], 3),
    ];
    assert!(!check_direct_constraint(&mut houses, direct(red(), dog())));
    assert_eq!(houses[0].color_vec, vec![red(), green()]);
    assert_eq!(houses[1].pet_vec, vec![dog(), cat()]);
    assert_eq!(houses[2].pet_vec, Vec::<Trait>::new());
}

#[test]
fn direct_constraint_on_no_houses() {
    let mut houses: Vec<House> = vec![];
    assert!(!check_direct_constraint(&mut houses, direct(red(), dog())));
}

#[test]
fn left_constraint_settles_a_single_pair() {
    let mut houses = vec![
        house(vec![green(), white()], vec![], 1),
        house(vec![green(), red()], vec![], 2),
        house(vec![white(), red()], vec![], 3),
    ];
    assert!(check_location_constraint(&mut houses, located(green(), white(), Location::Left)));
    // Green is struck from the first house by the scan, white by the settling.
    assert_eq!(houses[0].color_vec, Vec::<Trait>::new());
    assert_eq!(houses[1].color_vec, vec![green()]);
    assert_eq!(houses[2].color_vec, vec![white()]);
}

#[test]
fn settled_pair_strikes_its_traits_from_every_other_house() {
    let mut houses = vec![
        house(vec![green(), red()], vec![], 1),
        house(vec![white(), red()], vec![], 2),
        house(vec![green(), red()], vec![], 3),
    ];
    assert!(check_location_constraint(&mut houses, located(green(), white(), Location::Left)));
    assert_eq!(houses[0].color_vec, vec![green()]);
    assert_eq!(houses[1].color_vec, vec![white()]);
    // The last house has no right neighbour, and still loses green.
    assert_eq!(houses[2].color_vec, vec![red()]);
}

#[test]
fn right_constraint_swaps_the_sides() {
    let mut houses = vec![
        house(vec![white(), red()], vec![], 1),
        house(vec![green(), red()], vec![], 2),
        house(vec![green(), red()], vec![], 3),
    ];
    // White directly right of green: green is checked on the left of each
    // pair, white on the right, and no pair fits.
    assert!(!check_location_constraint(&mut houses, located(white(), green(), Location::Right)));
    assert_eq!(houses[0].color_vec, vec![white(), red()]);
    assert_eq!(houses[1].color_vec, vec![red()]);
    assert_eq!(houses[2].color_vec, vec![green(), red()]);
}

#[test]
fn next_to_constraint_settles_a_single_pair() {
    let mut houses = vec![
        house(vec![red()], vec![dog()], 1),
        house(vec![white()], vec![cat()], 2),
        house(vec![green()], vec![dog(), cat()], 3),
    ];
    assert!(check_location_constraint(&mut houses, located(red(), cat(), Location::NextTo)));
    assert_eq!(houses[0].color_vec, vec![red()]);
    assert_eq!(houses[1].pet_vec, vec![cat()]);
    // The cat is struck from the other right-hand neighbour.
    assert_eq!(houses[2].pet_vec, vec![dog()]);
}

#[test]
fn next_to_constraint_with_two_pairings_stays_open() {
    let mut houses = vec![
        house(vec![], vec![cat()], 1),
        house(vec![red()], vec![dog()], 2),
        house(vec![white()], vec![cat()], 3),
    ];
    assert!(!check_location_constraint(&mut houses, located(red(), cat(), Location::NextTo)));
    assert_eq!(houses[0].pet_vec, vec![cat()]);
    assert_eq!(houses[2].pet_vec, vec![cat()]);
}

#[test]
fn next_to_constraint_strikes_traits_without_partner() {
    let mut houses = vec![
        house(vec![red()], vec![dog()], 1),
        house(vec![white()], vec![cat()], 2),
        house(vec![green()], vec![dog()], 3),
        house(vec![red()], vec![dog()], 4),
    ];
    assert!(check_location_constraint(&mut houses, located(red(), cat(), Location::NextTo)));
    // House 4 may be red, but no neighbour may keep a cat: red is struck there.
    assert_eq!(houses[3].color_vec, Vec::<Trait>::new());
    assert_eq!(houses[0].color_vec, vec![red()]);
    assert_eq!(houses[1].pet_vec, vec![cat()]);
}

#[test]
fn next_to_constraint_without_any_pairing() {
    let mut houses = vec![
        house(vec![red()], vec![dog()], 1),
        house(vec![white()], vec![dog()], 2),
        house(vec![red()], vec![cat()], 3),
    ];
    assert!(!check_location_constraint(&mut houses, located(red(), cat(), Location::NextTo)));
    // Neither red house has a neighbour that may keep a cat, and the cat has
    // no red neighbour: all are struck.
    assert_eq!(houses[0].color_vec, Vec::<Trait>::new());
    assert_eq!(houses[2].color_vec, Vec::<Trait>::new());
    assert_eq!(houses[2].pet_vec, Vec::<Trait>::new());
}

#[test]
fn cleanup_spreads_settled_values() {
    let mut houses = vec![
        house(vec![red()], vec![dog(), cat()], 1),
        house(vec![red(), green()], vec![dog()], 2),
        house(vec![red(), green(), white()], vec![dog(), cat(), Trait::Pet(Pet::Fish)], 3),
    ];
    cleanup(&mut houses);
    // Houses are taken from left to right: the cat the first house is left
    // with is found only after its turn, so it is not spread.
    assert_eq!(houses[0].color_vec, vec![red()]);
    assert_eq!(houses[0].pet_vec, vec![cat()]);
    assert_eq!(houses[1].color_vec, vec![green()]);
    assert_eq!(houses[1].pet_vec, vec![dog()]);
    assert_eq!(houses[2].color_vec, vec![white()]);
    assert_eq!(houses[2].pet_vec, vec![cat(), Trait::Pet(Pet::Fish)]);
    // House numbers are never spread.
    assert_eq!(houses[2].number_vec, vec![Trait::Number(3)]);
}

#[test]
fn a_round_settles_or_keeps_every_constraint() {
    let mut constraints = fill_vectors();
    let mut houses = init_houses();
    let settled = solve_round(&mut constraints, &mut houses);
    assert_eq!(settled.len() + constraints.len(), 15);
    // The Norwegian lives in the first house: settled in the first round.
    assert!(settled.contains(&Constraint::DirectConstraint(direct(
        Trait::Nationality(Nationality::Norwegian),
        Trait::Number(1)
    ))));
    assert_eq!(houses[0].nationality_vec, vec![Trait::Nationality(Nationality::Norwegian)]);
    assert_eq!(houses[2].drink_vec, vec![Trait::Drink(Drink::Milk)]);
}

#[test]
fn solve_finds_the_answer() {
    let mut constraints = fill_vectors();
    let mut houses = init_houses();
    let rounds = solve(&mut constraints, &mut houses);
    assert!(constraints.is_empty());
    let total: usize = rounds.iter().map(|r| r.len()).sum();
    assert_eq!(total, 15);
    let expected = [
        (Color::Yellow, Nationality::Norwegian, Brand::Dunhill, Drink::Water, Pet::Cat),
        (Color::Blue, Nationality::Danish, Brand::Marlboro, Drink::Tea, Pet::Horse),
        (Color::Red, Nationality::British, Brand::PallMall, Drink::Milk, Pet::Bird),
        (Color::Green, Nationality::German, Brand::Rothmanns, Drink::Coffee, Pet::Fish),
        (Color::White, Nationality::Swedish, Brand::Winfield, Drink::Beer, Pet::Dog),
    ];
    for (h, (c, n, b, d, p)) in houses.iter().zip(expected.iter()) {
        assert_eq!(h.color_vec, vec![Trait::Color(*c)]);
        assert_eq!(h.nationality_vec, vec![Trait::Nationality(*n)]);
        assert_eq!(h.brand_vec, vec![Trait::Brand(*b)]);
        assert_eq!(h.drink_vec, vec![Trait::Drink(*d)]);
        assert_eq!(h.pet_vec, vec![Trait::Pet(*p)]);
    }
}

#[test]
fn solve_stops_when_nothing_changes() {
    // Red next to a cat, but no house may keep a cat: nothing is ever settled.
    let mut constraints = vec![
        Constraint::LocationConstraint(located(red(), cat(), Location::NextTo)),
        Constraint::DirectConstraint(direct(red(), dog())),
    ];
    let mut houses = vec![
        house(vec![red(), green()], vec![dog()], 1),
        house(vec![red(), green()], vec![dog()], 2),
    ];
    let rounds = solve(&mut constraints, &mut houses);
    assert_eq!(constraints.len(), 2);
    assert_eq!(rounds.len(), 2);
    assert!(rounds.iter().all(|r| r.is_empty()));
    // Red and dog are struck everywhere; the green the first house is left
    // with is then struck from the second house by the cleanup.
    assert_eq!(houses[0].color_vec, vec![green()]);
    assert_eq!(houses[1].color_vec, Vec::<Trait>::new());
    assert_eq!(houses[1].pet_vec, Vec::<Trait>::new());
}

#[test]
fn every_round_keeps_the_answer_possible() {
    let answer = [
        (Color::Yellow, Nationality::Norwegian, Brand::Dunhill, Drink::Water, Pet::Cat),
        (Color::Blue, Nationality::Danish, Brand::Marlboro, Drink::Tea, Pet::Horse),
        (Color::Red, Nationality::British, Brand::PallMall, Drink::Milk, Pet::Bird),
        (Color::Green, Nationality::German, Brand::Rothmanns, Drink::Coffee, Pet::Fish),
        (Color::White, Nationality::Swedish, Brand::Winfield, Drink::Beer, Pet::Dog),
    ];
    let mut constraints = fill_vectors();
    let mut houses = init_houses();
    let mut size_before: usize = houses
        .iter()
        .map(|h| h.color_vec.len() + h.nationality_vec.len() + h.brand_vec.len() + h.drink_vec.len() + h.pet_vec.len())
        .sum::<usize>()
        + constraints.len();
    let mut rounds = 0;
    while !constraints.is_empty() && rounds < 50 {
        solve_round(&mut constraints, &mut houses);
        rounds += 1;
        for (h, (c, n, b, d, p)) in houses.iter().zip(answer.iter()) {
            assert!(contains(h, &Trait::Color(*c)));
            assert!(contains(h, &Trait::Nationality(*n)));
            assert!(contains(h, &Trait::Brand(*b)));
            assert!(contains(h, &Trait::Drink(*d)));
            assert!(contains(h, &Trait::Pet(*p)));
        }
        // Each round settles a constraint or strikes a value.
        let size_after: usize = houses
            .iter()
            .map(|h| h.color_vec.len() + h.nationality_vec.len() + h.brand_vec.len() + h.drink_vec.len() + h.pet_vec.len())
            .sum::<usize>()
            + constraints.len();
        assert!(size_after < size_before);
        size_before = size_after;
    }
    assert!(constraints.is_empty());
}

#[test]
fn solve_stops_as_soon_as_every_constraint_is_settled() {
    let mut constraints = vec![Constraint::DirectConstraint(direct(Trait::Number(2), red()))];
    let mut houses = vec![
        house(vec![green()], vec![], 1),
        house(vec![red()], vec![], 2),
        house(vec![green(), Trait::Color(Color::Blue)], vec![], 3),
    ];
    let rounds = solve(&mut constraints, &mut houses);
    assert_eq!(rounds.len(), 1);
    assert_eq!(rounds[0].len(), 1);
    assert!(constraints.is_empty());
    assert_eq!(houses[0].color_vec, vec![green()]);
    assert_eq!(houses[1].color_vec, vec![red()]);
    assert_eq!(houses[2].color_vec, vec![Trait::Color(Color::Blue)]);
}

#[test]
fn checking_a_direct_constraint_twice_changes_nothing() {
    let mut houses = vec![
        house(vec![red(), green()], vec![cat()], 1),
        house(vec![red(), white()], vec![dog(), cat()], 2),
        house(vec![green()], vec![dog()], 3),
    ];
    let first = check_direct_constraint(&mut houses, direct(red(), dog()));
    let after_first = houses.clone();
    let second = check_direct_constraint(&mut houses, direct(red(), dog()));
    assert_eq!(first, second);
    assert_eq!(houses, after_first);
}

#[test]
fn checking_a_location_constraint_twice_changes_nothing() {
    let cases = vec![
        (
            vec![
                house(vec![green(), red()], vec![], 1),
                house(vec![white(), red()], vec![], 2),
                house(vec![green(), red()], vec![], 3),
            ],
            located(green(), white(), Location::Left),
        ),
        (
            vec![
                house(vec![white(), red()], vec![], 1),
                house(vec![green(), red()], vec![], 2),
                house(vec![green(), red()], vec![], 3),
            ],
            located(white(), green(), Location::Right),
        ),
        (
            vec![
                house(vec![], vec![cat()], 1),
                house(vec![red()], vec![dog()], 2),
                house(vec![white()], vec![cat()], 3),
            ],
            located(red(), cat(), Location::NextTo),
        ),
        (
            vec![
                house(vec![red()], vec![dog()], 1),
                house(vec![white()], vec![cat()], 2),
                house(vec![green()], vec![dog()], 3),
                house(vec![red()], vec![dog()], 4),
            ],
            located(red(), cat(), Location::NextTo),
        ),
    ];
    for (mut houses, constraint) in cases {
        let first = check_location_constraint(&mut houses, constraint);
        let after_first = houses.clone();
        let second = check_location_constraint(&mut houses, constraint);
        assert_eq!(first, second);
        assert_eq!(houses, after_first);
    }
}

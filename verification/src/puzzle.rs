use vstd::prelude::*;
use crate::types::{
    Brand, Color, Constraint, DirectConstraint, Drink, House, Location, LocationConstraint,
    Nationality, Pet, Trait,
};
use crate::model::{lists, HouseLists, Street};

verus! {

/// Every color, in the order a fresh house lists them.
pub open spec fn all_colors() -> Seq<Trait> {
    seq![
        Trait::Color(Color::Blue),
        Trait::Color(Color::Green),
        Trait::Color(Color::Red),
        Trait::Color(Color::White),
        Trait::Color(Color::Yellow),
    ]
}

/// Every nationality, in the order a fresh house lists them.
pub open spec fn all_nationalities() -> Seq<Trait> {
    seq![
        Trait::Nationality(Nationality::British),
        Trait::Nationality(Nationality::Danish),
        Trait::Nationality(Nationality::German),
        Trait::Nationality(Nationality::Norwegian),
        Trait::Nationality(Nationality::Swedish),
    ]
}

/// Every brand, in the order a fresh house lists them.
pub open spec fn all_brands() -> Seq<Trait> {
    seq![
        Trait::Brand(Brand::Dunhill),
        Trait::Brand(Brand::Marlboro),
        Trait::Brand(Brand::PallMall),
        Trait::Brand(Brand::Rothmanns),
        Trait::Brand(Brand::Winfield),
    ]
}

/// Every drink, in the order a fresh house lists them.
pub open spec fn all_drinks() -> Seq<Trait> {
    seq![
        Trait::Drink(Drink::Beer),
        Trait::Drink(Drink::Coffee),
        Trait::Drink(Drink::Milk),
        Trait::Drink(Drink::Tea),
        Trait::Drink(Drink::Water),
    ]
}

/// Every pet, in the order a fresh house lists them.
pub open spec fn all_pets() -> Seq<Trait> {
    seq![
        Trait::Pet(Pet::Bird),
        Trait::Pet(Pet::Cat),
        Trait::Pet(Pet::Dog),
        Trait::Pet(Pet::Fish),
        Trait::Pet(Pet::Horse),
    ]
}

/// A fresh house: every value is possible, and its number is fixed.
pub open spec fn fresh_house(number: int) -> HouseLists {
    seq![
        all_colors(),
        all_nationalities(),
        all_brands(),
        all_drinks(),
        all_pets(),
        seq![Trait::Number(number as i32)],
    ]
}

/// The starting street: five fresh houses numbered 1 to 5 from left to right.
pub open spec fn starting_street() -> Street {
    Seq::new(5, |i: int| fresh_house(i + 1))
}

/// A direct constraint that is not yet fulfilled.
pub open spec fn same_house(t1: Trait, t2: Trait) -> Constraint {
    Constraint::DirectConstraint(DirectConstraint { trait_1: t1, trait_2: t2, fulfilled: false })
}

/// A location constraint that is not yet fulfilled.
pub open spec fn placed(t1: Trait, t2: Trait, location: Location) -> Constraint {
    Constraint::LocationConstraint(
        LocationConstraint { trait_1: t1, trait_2: t2, location, fulfilled: false },
    )
}

/// The clues of the puzzle, in the order they are checked.
pub open spec fn puzzle_clues() -> Seq<Constraint> {
    seq![
        same_house(Trait::Nationality(Nationality::British), Trait::Color(Color::Red)),
        same_house(Trait::Nationality(Nationality::Swedish), Trait::Pet(Pet::Dog)),
        same_house(Trait::Nationality(Nationality::Danish), Trait::Drink(Drink::Tea)),
        same_house(Trait::Nationality(Nationality::German), Trait::Brand(Brand::Rothmanns)),
        same_house(Trait::Color(Color::Green), Trait::Drink(Drink::Coffee)),
        same_house(Trait::Brand(Brand::Winfield), Trait::Drink(Drink::Beer)),
        same_house(Trait::Nationality(Nationality::Norwegian), Trait::Number(1)),
        placed(Trait::Nationality(Nationality::Norwegian), Trait::Color(Color::Blue), Location::NextTo),
        same_house(Trait::Color(Color::Yellow), Trait::Brand(Brand::Dunhill)),
        same_house(Trait::Brand(Brand::PallMall), Trait::Pet(Pet::Bird)),
        same_house(Trait::Number(3), Trait::Drink(Drink::Milk)),
        placed(Trait::Color(Color::Green), Trait::Color(Color::White), Location::Left),
        placed(Trait::Brand(Brand::Marlboro), Trait::Pet(Pet::Cat), Location::NextTo),
        placed(Trait::Brand(Brand::Marlboro), Trait::Drink(Drink::Water), Location::NextTo),
        placed(Trait::Pet(Pet::Horse), Trait::Brand(Brand::Dunhill), Location::NextTo),
    ]
}

/// A fresh house with the given number.
fn new_house(number: i32) -> (house: House)
    ensures
        house@ == fresh_house(number as int),
{
    let house = House {
        color_vec: vec![
            Trait::Color(Color::Blue),
            Trait::Color(Color::Green),
            Trait::Color(Color::Red),
            Trait::Color(Color::White),
            Trait::Color(Color::Yellow),
        ],
        nationality_vec: vec![
            Trait::Nationality(Nationality::British),
            Trait::Nationality(Nationality::Danish),
            Trait::Nationality(Nationality::German),
            Trait::Nationality(Nationality::Norwegian),
            Trait::Nationality(Nationality::Swedish),
        ],
        brand_vec: vec![
            Trait::Brand(Brand::Dunhill),
            Trait::Brand(Brand::Marlboro),
            Trait::Brand(Brand::PallMall),
            Trait::Brand(Brand::Rothmanns),
            Trait::Brand(Brand::Winfield),
        ],
        drink_vec: vec![
            Trait::Drink(Drink::Beer),
            Trait::Drink(Drink::Coffee),
            Trait::Drink(Drink::Milk),
            Trait::Drink(Drink::Tea),
            Trait::Drink(Drink::Water),
        ],
        pet_vec: vec![
            Trait::Pet(Pet::Bird),
            Trait::Pet(Pet::Cat),
            Trait::Pet(Pet::Dog),
            Trait::Pet(Pet::Fish),
            Trait::Pet(Pet::Horse),
        ],
        number_vec: vec![Trait::Number(number)],
    };
    assert(house.color_vec@ =~= all_colors());
    assert(house.number_vec@ =~= seq![Trait::Number(number)]);
    assert(house@ =~= fresh_house(number as int));
    house
}

/// The five houses of the puzzle, numbered 1 to 5, with every value possible.
pub fn init_houses() -> (houses: Vec<House>)
    ensures
        lists(houses@) == starting_street(),
{
    let mut houses: Vec<House> = Vec::new();
    let mut number: i32 = 1;
    while number <= 5
        invariant
            1 <= number <= 6,
            houses@.len() == number - 1,
            forall|i: int| 0 <= i < houses@.len() ==> #[trigger] houses@[i]@ == fresh_house(i + 1),
        decreases 6 - number,
    {
        houses.push(new_house(number));
        number = number + 1;
    }
    assert(lists(houses@) =~= starting_street());
    houses
}

/// The clues of the puzzle, each not yet fulfilled.
pub fn fill_vectors() -> (dep_vector: Vec<Constraint>)
    ensures
        dep_vector@ == puzzle_clues(),
{
    let mut dep_vector: Vec<Constraint> = Vec::new();

    // The Brit lives in the red house.
    dep_vector.push(Constraint::DirectConstraint(DirectConstraint {
        trait_1: Trait::Nationality(Nationality::British),
        trait_2: Trait::Color(Color::Red),
        fulfilled: false,
    }));
    // The Swede keeps dogs.
    dep_vector.push(Constraint::DirectConstraint(DirectConstraint {
        trait_1: Trait::Nationality(Nationality::Swedish),
        trait_2: Trait::Pet(Pet::Dog),
        fulfilled: false,
    }));
    // The Dane drinks tea.
    dep_vector.push(Constraint::DirectConstraint(DirectConstraint {
        trait_1: Trait::Nationality(Nationality::Danish),
        trait_2: Trait::Drink(Drink::Tea),
        fulfilled: false,
    }));
    // The German smokes Rothmanns.
    dep_vector.push(Constraint::DirectConstraint(DirectConstraint {
        trait_1: Trait::Nationality(Nationality::German),
        trait_2: Trait::Brand(Brand::Rothmanns),
        fulfilled: false,
    }));
    // The owner of the green house drinks coffee.
    dep_vector.push(Constraint::DirectConstraint(DirectConstraint {
        trait_1: Trait::Color(Color::Green),
        trait_2: Trait::Drink(Drink::Coffee),
        fulfilled: false,
    }));
    // The Winfield smoker drinks beer.
    dep_vector.push(Constraint::DirectConstraint(DirectConstraint {
        trait_1: Trait::Brand(Brand::Winfield),
        trait_2: Trait::Drink(Drink::Beer),
        fulfilled: false,
    }));
    // The Norwegian lives in the first house.
    dep_vector.push(Constraint::DirectConstraint(DirectConstraint {
        trait_1: Trait::Nationality(Nationality::Norwegian),
        trait_2: Trait::Number(1),
        fulfilled: false,
    }));
    // The Norwegian lives next to the blue house.
    dep_vector.push(Constraint::LocationConstraint(LocationConstraint {
        trait_1: Trait::Nationality(Nationality::Norwegian),
        trait_2: Trait::Color(Color::Blue),
        location: Location::NextTo,
        fulfilled: false,
    }));
    // The owner of the yellow house smokes Dunhill.
    dep_vector.push(Constraint::DirectConstraint(DirectConstraint {
        trait_1: Trait::Color(Color::Yellow),
        trait_2: Trait::Brand(Brand::Dunhill),
        fulfilled: false,
    }));
    // The Pall Mall smoker keeps birds.
    dep_vector.push(Constraint::DirectConstraint(DirectConstraint {
        trait_1: Trait::Brand(Brand::PallMall),
        trait_2: Trait::Pet(Pet::Bird),
        fulfilled: false,
    }));
    // The man in the middle house drinks milk.
    dep_vector.push(Constraint::DirectConstraint(DirectConstraint {
        trait_1: Trait::Number(3),
        trait_2: Trait::Drink(Drink::Milk),
        fulfilled: false,
    }));
    // The green house stands directly left of the white house.
    dep_vector.push(Constraint::LocationConstraint(LocationConstraint {
        trait_1: Trait::Color(Color::Green),
        trait_2: Trait::Color(Color::White),
        location: Location::Left,
        fulfilled: false,
    }));
    // The Marlboro smoker lives next to the cat owner.
    dep_vector.push(Constraint::LocationConstraint(LocationConstraint {
        trait_1: Trait::Brand(Brand::Marlboro),
        trait_2: Trait::Pet(Pet::Cat),
        location: Location::NextTo,
        fulfilled: false,
    }));
    // The Marlboro smoker lives next to the water drinker.
    dep_vector.push(Constraint::LocationConstraint(LocationConstraint {
        trait_1: Trait::Brand(Brand::Marlboro),
        trait_2: Trait::Drink(Drink::Water),
        location: Location::NextTo,
        fulfilled: false,
    }));
    // The horse owner lives next to the Dunhill smoker.
    dep_vector.push(Constraint::LocationConstraint(LocationConstraint {
        trait_1: Trait::Pet(Pet::Horse),
        trait_2: Trait::Brand(Brand::Dunhill),
        location: Location::NextTo,
        fulfilled: false,
    }));

    assert(dep_vector@ =~= puzzle_clues());
    dep_vector
}

} // verus!

use vstd::prelude::*;

verus! {

#[derive(Debug, PartialEq, Eq, Copy, Clone, Structural)]
pub enum Color {
    Red,
    Green,
    Blue,
    White,
    Yellow,
}

#[derive(Debug, PartialEq, Eq, Copy, Clone, Structural)]
pub enum Nationality {
    German,
    Swedish,
    Danish,
    British,
    Norwegian,
}

#[derive(Debug, PartialEq, Eq, Copy, Clone, Structural)]
pub enum Brand {
    Rothmanns,
    Winfield,
    Dunhill,
    PallMall,
    Marlboro,
}

#[derive(Debug, PartialEq, Eq, Copy, Clone, Structural)]
pub enum Drink {
    Tea,
    Coffee,
    Beer,
    Milk,
    Water,
}

#[derive(Debug, PartialEq, Eq, Copy, Clone, Structural)]
pub enum Pet {
    Dog,
    Bird,
    Cat,
    Horse,
    Fish,
}

/// The values still possible for one house, one list per category.
#[derive(Debug, PartialEq, Eq, Clone)]
pub struct House {
    pub color_vec: Vec<Trait>,
    pub nationality_vec: Vec<Trait>,
    pub brand_vec: Vec<Trait>,
    pub drink_vec: Vec<Trait>,
    pub pet_vec: Vec<Trait>,
    pub number_vec: Vec<Trait>,
}

/// Where the house of the first trait stands relative to the house of the
/// second: next to it, directly left of it, or directly right of it.
#[derive(Debug, PartialEq, Eq, Copy, Clone, Structural)]
pub enum Location {
    NextTo,
    Left,
    Right,
}

#[derive(Debug, PartialEq, Eq, Copy, Clone, Structural)]
pub enum Trait {
    Color(Color),
    Nationality(Nationality),
    Brand(Brand),
    Drink(Drink),
    Pet(Pet),
    Number(i32),
}

/// Both traits belong to the same house.
#[derive(Debug, PartialEq, Eq, Copy, Clone, Structural)]
pub struct DirectConstraint {
    pub trait_1: Trait,
    pub trait_2: Trait,
    pub fulfilled: bool,
}

/// The houses of the two traits stand next to each other, or the house of
/// `trait_1` stands directly left (or right) of the house of `trait_2`.
#[derive(Debug, PartialEq, Eq, Copy, Clone, Structural)]
pub struct LocationConstraint {
    pub trait_1: Trait,
    pub trait_2: Trait,
    pub location: Location,
    pub fulfilled: bool,
}

#[derive(Debug, PartialEq, Eq, Copy, Clone, Structural)]
pub enum Constraint {
    DirectConstraint(DirectConstraint),
    LocationConstraint(LocationConstraint),
}

} // verus!

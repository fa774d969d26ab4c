//! A constraint-propagation solver for the five-houses ("zebra") logic puzzle.
//!
//! Every house keeps, for each category of trait, the list of values that are
//! still possible for it. Constraints between traits are checked against those
//! lists, impossible values are struck out, and the lists shrink until every
//! constraint is settled.
use vstd::prelude::*;

pub mod types;
pub mod model;
pub mod house_ops;
pub mod direct;
pub mod location;
pub mod cleanup;
pub mod puzzle;
pub mod solver;
pub mod narrowing;
pub mod solutions;
pub mod repeat;
pub mod laws;

verus! {
}

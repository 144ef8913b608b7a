//! A small population model: a beach that owns an ordered collection of
//! crabs, and a clan system that groups crab names into named clans for
//! competitive comparison.

pub mod beach;
pub mod clans;
pub mod color;
pub mod crab;
pub mod diet;
pub mod text;

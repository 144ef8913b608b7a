//! Diets carried by crabs, drawn at random when a new crab is bred.

use vstd::prelude::*;

verus! {

/// What a crab eats. A newly bred crab gets one of these at random.
#[derive(Clone, Copy, Debug, PartialEq, Eq, Structural)]
pub enum Diet {
    Plants,
    Fish,
    Shrimp,
}

/// Relies on rand::random::<u8>: returns some byte; nothing is promised of
/// which one comes back.
#[verifier::external_body]
fn random_byte() -> (r: u8) {
    rand::random::<u8>()
}

impl Diet {
    /// Draw a diet at random. Every call may return a different diet; nothing
    /// is promised of which one comes back.
    pub fn random_diet() -> (d: Diet) {
        let r = random_byte();
        let m = r % 3;
        if m == 0 {
            Diet::Plants
        } else if m == 1 {
            Diet::Fish
        } else {
            Diet::Shrimp
        }
    }
}

} // verus!

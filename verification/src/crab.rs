//! The crab: an immutable record of a name, a speed, a color and a diet.

use vstd::prelude::*;

use crate::color::Color;
use crate::diet::Diet;
use crate::text::str_eq;

verus! {

/// What a crab is, mathematically: its name as a sequence of characters,
/// and its three attributes.
#[verifier::ext_equal]
pub ghost struct CrabView {
    pub name: Seq<char>,
    pub speed: u32,
    pub color: Color,
    pub diet: Diet,
}

/// An individual crab. Immutable once constructed.
#[derive(Debug)]
pub struct Crab {
    name: String,
    speed: u32,
    color: Color,
    diet: Diet,
}

impl View for Crab {
    type V = CrabView;

    closed spec fn view(&self) -> CrabView {
        CrabView { name: self.name@, speed: self.speed, color: self.color, diet: self.diet }
    }
}

impl Crab {
    /// Construct a crab from its name and attributes.
    pub fn new(name: String, speed: u32, color: Color, diet: Diet) -> (c: Crab)
        ensures
            c@ == (CrabView { name: name@, speed, color, diet }),
    {
        Crab { name, speed, color, diet }
    }

    /// The crab's name.
    pub fn name(&self) -> (r: &str)
        ensures
            r@ == self@.name,
    {
        self.name.as_str()
    }

    /// The crab's speed.
    pub fn speed(&self) -> (r: u32)
        ensures
            r == self@.speed,
    {
        self.speed
    }

    /// The crab's color.
    pub fn color(&self) -> (r: Color)
        ensures
            r == self@.color,
    {
        self.color
    }

    /// Whether the crab carries exactly this name.
    pub fn is_named(&self, name: &str) -> (r: bool)
        ensures
            r == (self@.name == name@),
    {
        str_eq(self.name.as_str(), name)
    }
}

} // verus!

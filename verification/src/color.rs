//! Colors carried by crabs, and the rule for crossing two parent colors
//! during breeding.

use vstd::prelude::*;

verus! {

/// A crab's color. The primary colors can be crossed into secondary ones.
#[derive(Clone, Copy, Debug, PartialEq, Eq, Structural)]
pub enum Color {
    Red,
    Blue,
    Yellow,
    Purple,
    Green,
    Orange,
}

/// The color obtained by crossing two parent colors: two distinct primary
/// colors mix into the secondary color between them; any other pair keeps
/// the first parent's color.
pub open spec fn cross_spec(a: Color, b: Color) -> Color {
    match (a, b) {
        (Color::Red, Color::Blue) => Color::Purple,
        (Color::Blue, Color::Red) => Color::Purple,
        (Color::Blue, Color::Yellow) => Color::Green,
        (Color::Yellow, Color::Blue) => Color::Green,
        (Color::Red, Color::Yellow) => Color::Orange,
        (Color::Yellow, Color::Red) => Color::Orange,
        _ => a,
    }
}

impl Color {
    /// Cross two parent colors into the color of their child.
    pub fn cross(a: Color, b: Color) -> (r: Color)
        ensures
            r == cross_spec(a, b),
    {
        match (a, b) {
            (Color::Red, Color::Blue) => Color::Purple,
            (Color::Blue, Color::Red) => Color::Purple,
            (Color::Blue, Color::Yellow) => Color::Green,
            (Color::Yellow, Color::Blue) => Color::Green,
            (Color::Red, Color::Yellow) => Color::Orange,
            (Color::Yellow, Color::Red) => Color::Orange,
            _ => a,
        }
    }
}

} // verus!

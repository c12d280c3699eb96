//! Apples.

use vstd::prelude::*;
use crate::aux::{Color, Coordinates};

verus! {

/// An apple waiting to be eaten by a snake.
#[derive(Debug, Clone, Copy, PartialEq, Eq, Structural)]
pub struct Apple {
    /// Where the apple is.
    pub coords: Coordinates,
    /// How the apple is drawn.
    pub color: Color,
}

impl Apple {
    /// The apple [`Apple::new`] returns.
    pub open spec fn new_spec(coords: Coordinates, color: Option<Color>) -> Apple {
        Apple {
            coords,
            color: match color {
                Some(c) => c,
                None => Color::spec_red(),
            },
        }
    }

    /// Return a new apple at `coords`, colored `color` or, when it is none,
    /// red.
    pub fn new(coords: Coordinates, color: Option<Color>) -> (r: Self)
        ensures
            r == Self::new_spec(coords, color),
    {
        let color = match color {
            Some(c) => c,
            None => Color::red(),
        };
        Self { coords, color }
    }

    /// Return the apple's coordinates.
    pub fn coords(&self) -> (r: Coordinates)
        ensures
            r == self.coords,
    {
        self.coords
    }

    /// Return the apple's color.
    pub fn color(&self) -> (r: Color)
        ensures
            r == self.color,
    {
        self.color
    }
}

} // verus!

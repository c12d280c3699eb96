//! The grid: a picture of the world as a list of colored points.

use vstd::prelude::*;
use crate::apple::Apple;
use crate::aux::{Color, Coordinates};
use crate::random::random_between;
use crate::snake::{SnakePart, SnakeView};

verus! {

/// The kinds of objects a grid point can show.
#[derive(Debug, Clone, Copy, PartialEq, Eq, Structural)]
pub enum GameObject {
    /// A part of a snake.
    SnakePart,
    /// An apple.
    Apple,
}

/// One point of the grid.
#[derive(Debug, Clone, Copy, PartialEq, Eq, Structural)]
pub struct GridPoint {
    /// What the point shows.
    pub object_kind: GameObject,
    /// Where the point is.
    pub coordinates: Coordinates,
    /// How the point is drawn.
    pub color: Color,
}

impl GridPoint {
    /// Return a new [`GridPoint`].
    pub fn new(object_kind: GameObject, coordinates: Coordinates, color: Color) -> (r: Self)
        ensures
            r == (GridPoint { object_kind, coordinates, color }),
    {
        Self { object_kind, coordinates, color }
    }

    /// Change the point's color.
    pub fn change_color(&mut self, color: Color)
        ensures
            *final(self) == (GridPoint { color, ..*old(self) }),
    {
        self.color = color;
    }

    /// Return the point's coordinates.
    pub fn coords(&self) -> (r: Coordinates)
        ensures
            r == self.coordinates,
    {
        self.coordinates
    }
}

/// The point that shows an apple.
pub open spec fn apple_point(a: Apple) -> GridPoint {
    GridPoint { object_kind: GameObject::Apple, coordinates: a.coords, color: Color::spec_red() }
}

/// The point that shows a part of a snake.
pub open spec fn part_point(p: SnakePart) -> GridPoint {
    GridPoint { object_kind: GameObject::SnakePart, coordinates: p.coordinates, color: p.color }
}

/// The points that show the apples, in order.
pub open spec fn apple_points(apples: Seq<Apple>) -> Seq<GridPoint> {
    apples.map_values(|a: Apple| apple_point(a))
}

/// The points that show the parts of the snakes, snake after snake, each from
/// tail to head.
pub open spec fn snake_points(snakes: Seq<SnakeView>) -> Seq<GridPoint>
    decreases snakes.len(),
{
    if snakes.len() == 0 {
        Seq::empty()
    } else {
        snake_points(snakes.drop_last()) + snakes.last().parts.map_values(|p: SnakePart| part_point(p))
    }
}

/// The points that show a world: its apples, then its snakes.
pub open spec fn world_points(apples: Seq<Apple>, snakes: Seq<SnakeView>) -> Seq<GridPoint> {
    apple_points(apples) + snake_points(snakes)
}

/// Whether `c` lies in a grid of the given size: sides are counted from 1 and
/// both ends are included.
pub open spec fn in_grid(c: Coordinates, size: (usize, usize)) -> bool {
    1 <= c.x <= size.0 && 1 <= c.y <= size.1
}

/// The game grid: the points that show the world, and the grid's size.
#[derive(Debug)]
pub struct Grid {
    /// The points.
    pub data: Vec<GridPoint>,
    /// Width and height. Both ends count, so a 50x50 grid holds (50, 50).
    pub size: (usize, usize),
}

impl Grid {
    /// Width of a grid made by [`Default`].
    pub const DEFAULT_WIDTH: usize = 50;

    /// Height of a grid made by [`Default`].
    pub const DEFAULT_HEIGHT: usize = 25;

    /// Return an empty grid of the given size.
    pub fn new(size: (usize, usize)) -> (r: Self)
        ensures
            r.data@.len() == 0,
            r.size == size,
    {
        Self { data: Vec::new(), size }
    }

    /// Return random coordinates from (1 + `offset`, 1 + `offset`) to
    /// (width - `offset`, height - `offset`), both ends included.
    pub fn random_coords(&self, offset: i32) -> (r: Coordinates)
        requires
            0 <= offset,
            self.size.0 <= i32::MAX,
            self.size.1 <= i32::MAX,
            1 + 2 * offset <= self.size.0,
            1 + 2 * offset <= self.size.1,
        ensures
            1 + offset <= r.x <= self.size.0 - offset,
            1 + offset <= r.y <= self.size.1 - offset,
    {
        let w = self.size.0 as i64;
        let h = self.size.1 as i64;
        let o = offset as i64;
        let x = random_between(1 + o, w - o);
        let y = random_between(1 + o, h - o);
        Coordinates::new(x as i32, y as i32)
    }
}

impl Clone for Grid {
    fn clone(&self) -> (r: Self)
        ensures
            r.data@ == self.data@,
            r.size == self.size,
    {
        let mut data: Vec<GridPoint> = Vec::new();
        let mut i: usize = 0;
        while i < self.data.len()
            invariant
                i <= self.data@.len(),
                data@ =~= self.data@.take(i as int),
            decreases self.data@.len() - i,
        {
            data.push(self.data[i]);
            i += 1;
        }
        proof {
            assert(data@ =~= self.data@);
        }
        Self { data, size: self.size }
    }
}

impl Default for Grid {
    fn default() -> (r: Self)
        ensures
            r.data@.len() == 0,
            r.size == (Grid::DEFAULT_WIDTH, Grid::DEFAULT_HEIGHT),
    {
        Self::new((Self::DEFAULT_WIDTH, Self::DEFAULT_HEIGHT))
    }
}

} // verus!

//! Snakes and their parts.

use vstd::prelude::*;
use crate::aux::{str_is, fits_i32, offset_fits, opposite_of, shifted, Color, Coordinates, Direction};
use crate::error::{fault_of, GameError, GameErrorView};

verus! {

/// One part of a snake: a position and a color.
#[derive(Debug, Clone, Copy, PartialEq, Eq, Structural)]
pub struct SnakePart {
    /// Where the part is.
    pub coordinates: Coordinates,
    /// How the part is drawn.
    pub color: Color,
}

impl SnakePart {
    /// Return a new part with the given coordinates and color.
    pub fn new(coordinates: Coordinates, color: Color) -> (r: Self)
        ensures
            r == (SnakePart { coordinates, color }),
    {
        Self { coordinates, color }
    }

    /// Move the part by `delta` relative to where it is.
    pub fn mv(&mut self, delta: (i32, i32))
        requires
            fits_i32(old(self).coordinates.x + delta.0),
            fits_i32(old(self).coordinates.y + delta.1),
        ensures
            final(self).coordinates.x == old(self).coordinates.x + delta.0,
            final(self).coordinates.y == old(self).coordinates.y + delta.1,
            final(self).color == old(self).color,
    {
        self.coordinates = self.coordinates + Coordinates::new(delta.0, delta.1);
    }

    /// Put the part at `coordinates`.
    pub fn set_coords(&mut self, coordinates: Coordinates)
        ensures
            *final(self) == (SnakePart { coordinates, color: old(self).color }),
    {
        self.coordinates = coordinates;
    }

    /// Return the part's coordinates.
    pub fn coords(&self) -> (r: Coordinates)
        ensures
            r == self.coordinates,
    {
        self.coordinates
    }

    /// Return the part's color.
    pub fn color(&self) -> (r: Color)
        ensures
            r == self.color,
    {
        self.color
    }
}

/// What a [`Snake`] is: its name, its parts from tail to head, and the
/// direction of its head.
pub struct SnakeView {
    pub name: Seq<char>,
    pub parts: Seq<SnakePart>,
    pub direction: Direction,
}

impl SnakeView {
    /// Where the head (the last part) is.
    pub open spec fn head(self) -> Coordinates {
        self.parts.last().coordinates
    }

    /// Whether a part other than the head is at `c`.
    pub open spec fn body_has(self, c: Coordinates) -> bool {
        exists|k: int| 0 <= k < self.parts.len() - 1 && #[trigger] self.parts[k].coordinates == c
    }

    /// Whether the snake has no parts or its head lies on another of its parts.
    pub open spec fn bumped(self) -> bool {
        self.parts.len() == 0 || self.body_has(self.head())
    }
}

/// `length` parts on a line that starts at `start` and runs in direction `d`;
/// the last one is the head.
pub open spec fn line_parts(start: Coordinates, d: Direction, length: nat) -> Seq<SnakePart> {
    Seq::new(
        length,
        |i: int|
            SnakePart {
                coordinates: shifted(start, d, i),
                color: if i == length - 1 { Color::spec_head() } else { Color::spec_green() },
            },
    )
}

/// The parts after one move: each part but the head takes the place of the
/// next one, and the head goes `step` points in direction `d`. Colors stay.
pub open spec fn moved_parts(parts: Seq<SnakePart>, d: Direction, step: int) -> Seq<SnakePart> {
    Seq::new(
        parts.len(),
        |i: int|
            SnakePart {
                coordinates: if i < parts.len() - 1 {
                    parts[i + 1].coordinates
                } else {
                    shifted(parts[i].coordinates, d, step)
                },
                color: parts[i].color,
            },
    )
}

/// Whether the head of `parts` can go `step` points in direction `d`
/// without leaving `i32`.
pub open spec fn can_step(parts: Seq<SnakePart>, d: Direction, step: int) -> bool {
    parts.len() > 0 ==> offset_fits(parts.last().coordinates, d, step)
}

/// The color of the `k`-th part inserted at the tail when a snake grows with
/// the colors `colors` and then with the color of its tail, `tail`.
pub open spec fn fill_color(colors: Seq<Color>, tail: Color, k: int) -> Color {
    if k < colors.len() {
        colors[k]
    } else if colors.len() > 0 {
        colors.last()
    } else {
        tail
    }
}

/// The parts after `n` new parts were put one after another before the tail,
/// all at the tail's position: the first ones with the colors `colors`, the
/// others with the color the tail had then.
pub open spec fn grown_parts(parts: Seq<SnakePart>, n: nat, colors: Seq<Color>) -> Seq<SnakePart> {
    Seq::new(
        n,
        |j: int|
            SnakePart {
                coordinates: parts[0].coordinates,
                color: fill_color(colors, parts[0].color, n - 1 - j),
            },
    ) + parts
}

/// A snake: a name, parts from tail to head, and the direction its head goes.
#[derive(Debug, Clone)]
pub struct Snake {
    name: String,
    parts: Vec<SnakePart>,
    direction: Direction,
}

impl View for Snake {
    type V = SnakeView;

    closed spec fn view(&self) -> SnakeView {
        SnakeView { name: self.name@, parts: self.parts@, direction: self.direction }
    }
}

impl Snake {
    /// Return a snake named `name` with `length` parts on a line that starts
    /// at `coordinates` (the tail) and runs in `direction` up to the head.
    pub fn new(name: &str, coordinates: Coordinates, direction: Direction, length: usize) -> (r: Self)
        requires
            length > 0 ==> length - 1 <= i32::MAX && offset_fits(coordinates, direction, length - 1),
        ensures
            r@ == (SnakeView {
                name: name@,
                parts: line_parts(coordinates, direction, length as nat),
                direction,
            }),
    {
        let mut parts: Vec<SnakePart> = Vec::new();
        let mut i: usize = 0;
        while i < length
            invariant
                i <= length,
                length > 0 ==> length - 1 <= i32::MAX && offset_fits(coordinates, direction, length - 1),
                parts@ =~= line_parts(coordinates, direction, length as nat).take(i as int),
            decreases length - i,
        {
            let offset = i as i32;
            let part_coords = match direction {
                Direction::Right => Coordinates::new(coordinates.x + offset, coordinates.y),
                Direction::Left => Coordinates::new(coordinates.x - offset, coordinates.y),
                Direction::Up => Coordinates::new(coordinates.x, coordinates.y + offset),
                Direction::Down => Coordinates::new(coordinates.x, coordinates.y - offset),
            };
            let part_color = if i == length - 1 { Color::head() } else { Color::green() };
            parts.push(SnakePart::new(part_coords, part_color));
            i += 1;
        }
        proof {
            assert(parts@ =~= line_parts(coordinates, direction, length as nat));
        }
        Self { name: String::from_str(name), parts, direction }
    }

    /// Return the snake's name.
    pub fn name(&self) -> (r: String)
        ensures
            r@ == self@.name,
    {
        self.name.clone()
    }

    /// Return whether the snake is named `name`.
    pub fn is_named(&self, name: &str) -> (r: bool)
        ensures
            r == (self@.name == name@),
    {
        str_is(self.name.as_str(), name)
    }

    /// Return the direction of the snake's head.
    pub fn direction(&self) -> (r: Direction)
        ensures
            r == self@.direction,
    {
        self.direction
    }

    /// Return the snake's parts, from tail to head.
    pub fn parts(&self) -> (r: &Vec<SnakePart>)
        ensures
            r@ == self@.parts,
    {
        &self.parts
    }

    /// Return the snake's length (its number of parts).
    pub fn len(&self) -> (r: usize)
        ensures
            r == self@.parts.len(),
    {
        self.parts.len()
    }

    /// Return whether the snake has no parts.
    pub fn is_empty(&self) -> (r: bool)
        ensures
            r == (self@.parts.len() == 0),
    {
        self.len() == 0
    }

    /// Return the leading part (the head), if there is one.
    pub fn lp(&self) -> (r: Option<&SnakePart>)
        ensures
            self@.parts.len() == 0 ==> r is None,
            self@.parts.len() > 0 ==> r is Some && *r->0 == self@.parts.last(),
    {
        if self.parts.len() == 0 {
            None
        } else {
            Some(&self.parts[self.parts.len() - 1])
        }
    }

    /// Return the parts without the leading one.
    pub fn pwl(&self) -> (r: Vec<SnakePart>)
        ensures
            self@.parts.len() > 0 ==> r@ == self@.parts.drop_last(),
            self@.parts.len() == 0 ==> r@.len() == 0,
    {
        let mut parts = self.parts.clone();
        proof {
            assert(parts@ =~= self.parts@);
        }
        parts.pop();
        parts
    }

    /// Move the leading part `step` points in the snake's direction.
    pub fn lp_move(&mut self, step: i32) -> (r: Result<(), GameError>)
        requires
            can_step(old(self)@.parts, old(self)@.direction, step as int),
        ensures
            fault_of(r) == if old(self)@.parts.len() == 0 {
                Some(GameErrorView::EmptySnake(old(self)@.name))
            } else {
                None
            },
            final(self)@.name == old(self)@.name,
            final(self)@.direction == old(self)@.direction,
            old(self)@.parts.len() == 0 ==> final(self)@.parts == old(self)@.parts,
            old(self)@.parts.len() > 0 ==> final(self)@.parts == old(self)@.parts.update(
                old(self)@.parts.len() - 1,
                SnakePart {
                    coordinates: shifted(old(self)@.head(), old(self)@.direction, step as int),
                    color: old(self)@.parts.last().color,
                },
            ),
    {
        let n = self.parts.len();
        if n == 0 {
            return Err(GameError::EmptySnake(self.name.clone()));
        }
        let mut lp = self.parts[n - 1];
        let c = lp.coords();
        let moved = match self.direction {
            Direction::Up => Coordinates::new(c.x, c.y + step),
            Direction::Down => Coordinates::new(c.x, c.y - step),
            Direction::Left => Coordinates::new(c.x - step, c.y),
            Direction::Right => Coordinates::new(c.x + step, c.y),
        };
        lp.set_coords(moved);
        self.parts.set(n - 1, lp);
        Ok(())
    }

    /// Turn the snake's head to `direction`. A snake longer than one part
    /// cannot turn to the opposite of its direction.
    pub fn change_direction(&mut self, direction: Direction) -> (r: Result<(), GameError>)
        ensures
            fault_of(r) == if old(self)@.parts.len() == 0 {
                Some(GameErrorView::EmptySnake(old(self)@.name))
            } else if old(self)@.parts.len() > 1 && old(self)@.direction == opposite_of(direction) {
                Some(GameErrorView::ChangeDirectionToOpposite(old(self)@.name))
            } else {
                None
            },
            final(self)@ == if r is Ok {
                SnakeView { direction, ..old(self)@ }
            } else {
                old(self)@
            },
    {
        if self.is_empty() {
            Err(GameError::EmptySnake(self.name()))
        } else if self.len() > 1 && self.direction == direction.opposite() {
            Err(GameError::ChangeDirectionToOpposite(self.name()))
        } else {
            self.direction = direction;
            Ok(())
        }
    }

    /// Move the whole snake: every part takes the place of the next one and
    /// the head goes `step` points in the snake's direction.
    pub fn move_parts(&mut self, step: i32) -> (r: Result<(), GameError>)
        requires
            can_step(old(self)@.parts, old(self)@.direction, step as int),
        ensures
            fault_of(r) == if old(self)@.parts.len() == 0 {
                Some(GameErrorView::EmptySnake(old(self)@.name))
            } else {
                None
            },
            final(self)@ == (SnakeView {
                parts: moved_parts(old(self)@.parts, old(self)@.direction, step as int),
                ..old(self)@
            }),
    {
        let n = self.parts.len();
        if n == 0 {
            proof {
                assert(moved_parts(self.parts@, self.direction, step as int) =~= self.parts@);
            }
            return Err(GameError::EmptySnake(self.name.clone()));
        }
        let ghost old_parts = self.parts@;
        let mut i: usize = 0;
        while i + 1 < n
            invariant
                n == old_parts.len(),
                old_parts == old(self)@.parts,
                self@.direction == old(self)@.direction,
                self@.name == old(self)@.name,
                n > 0,
                i + 1 <= n,
                self.parts@.len() == n,
                forall|k: int| 0 <= k < i ==> #[trigger] self.parts@[k] == (SnakePart {
                    coordinates: old_parts[k + 1].coordinates,
                    color: old_parts[k].color,
                }),
                forall|k: int| i <= k < n ==> #[trigger] self.parts@[k] == old_parts[k],
            decreases n - i,
        {
            let next = self.parts[i + 1].coords();
            let mut part = self.parts[i];
            part.set_coords(next);
            self.parts.set(i, part);
            i += 1;
        }
        let r = self.lp_move(step);
        proof {
            assert(self.parts@ =~= moved_parts(old_parts, self.direction, step as int));
        }
        r
    }

    /// Return whether the head lies on another part of the snake.
    pub fn parts_bumped(&self) -> (r: Result<bool, GameError>)
        ensures
            fault_of(r) == if self@.parts.len() == 0 {
                Some(GameErrorView::EmptySnake(self@.name))
            } else {
                None
            },
            r matches Ok(b) ==> b == self@.body_has(self@.head()),
    {
        let n = self.parts.len();
        if n == 0 {
            return Err(GameError::EmptySnake(self.name()));
        }
        let head = self.parts[n - 1].coords();
        let mut k: usize = 0;
        while k + 1 < n
            invariant
                n == self@.parts.len(),
                n > 0,
                k + 1 <= n,
                head == self@.head(),
                forall|j: int| 0 <= j < k ==> self@.parts[j].coordinates != head,
            decreases n - k,
        {
            if self.parts[k].coords() == head {
                return Ok(true);
            }
            k += 1;
        }
        Ok(false)
    }

    /// Return whether the snake is alive: it has parts and its head lies on
    /// none of its other parts.
    pub fn alive(&self) -> (r: bool)
        ensures
            r == !self@.bumped(),
    {
        match self.parts_bumped() {
            Ok(b) => !b,
            Err(_) => false,
        }
    }

    /// Put a part before the tail, at the tail's position, colored `color`
    /// or, when it is none, like the tail.
    pub fn insert_part(&mut self, color: Option<Color>) -> (r: Result<(), GameError>)
        ensures
            fault_of(r) == if old(self)@.parts.len() == 0 {
                Some(GameErrorView::EmptySnake(old(self)@.name))
            } else {
                None
            },
            final(self)@ == if old(self)@.parts.len() == 0 {
                old(self)@
            } else {
                SnakeView {
                    parts: old(self)@.parts.insert(
                        0,
                        SnakePart {
                            coordinates: old(self)@.parts[0].coordinates,
                            color: match color {
                                Some(c) => c,
                                None => old(self)@.parts[0].color,
                            },
                        },
                    ),
                    ..old(self)@
                }
            },
    {
        if self.parts.len() == 0 {
            return Err(GameError::EmptySnake(self.name()));
        }
        let tail_part = self.parts[0];
        let color = match color {
            Some(color) => color,
            None => tail_part.color(),
        };
        self.parts.insert(0, SnakePart::new(tail_part.coords(), color));
        Ok(())
    }

    /// Grow the snake by `n` parts put before the tail, at the tail's
    /// position. The first ones take the colors of `colors` in turn; the others
    /// take the color the tail has when they are put.
    pub fn increment_size(&mut self, n: usize, colors: Option<Vec<Color>>) -> (r: Result<(), GameError>)
        requires
            colors matches Some(cs) ==> cs@.len() <= n,
        ensures
            fault_of(r) == if n > 0 && old(self)@.parts.len() == 0 {
                Some(GameErrorView::EmptySnake(old(self)@.name))
            } else {
                None
            },
            final(self)@ == if r is Err {
                old(self)@
            } else {
                SnakeView {
                    parts: grown_parts(
                        old(self)@.parts,
                        n as nat,
                        match colors {
                            Some(cs) => cs@,
                            None => Seq::empty(),
                        },
                    ),
                    ..old(self)@
                }
            },
    {
        let ghost cs: Seq<Color> = match &colors {
            Some(cs) => cs@,
            None => Seq::empty(),
        };
        let ghost start = self@;
        if n == 0 {
            proof {
                assert(grown_parts(start.parts, 0, cs) =~= start.parts);
            }
            return Ok(());
        }
        if self.parts.len() == 0 {
            return Err(GameError::EmptySnake(self.name()));
        }
        let given: Vec<Color> = match colors {
            Some(cs) => cs,
            None => Vec::new(),
        };
        let mut k: usize = 0;
        while k < n
            invariant
                k <= n,
                given@ == cs,
                cs.len() <= n,
                start.parts.len() > 0,
                self@.name == start.name,
                self@.direction == start.direction,
                self@.parts =~= Seq::new(
                    k as nat,
                    |j: int|
                        SnakePart {
                            coordinates: start.parts[0].coordinates,
                            color: fill_color(cs, start.parts[0].color, k - 1 - j),
                        },
                ) + start.parts,
            decreases n - k,
        {
            let color = if k < given.len() { Some(given[k]) } else { None };
            let ghost before = self@.parts;
            let _ = self.insert_part(color);
            proof {
                let fill = |j: int|
                    SnakePart {
                        coordinates: start.parts[0].coordinates,
                        color: fill_color(cs, start.parts[0].color, k - j),
                    };
                assert(self@.parts =~= Seq::new((k + 1) as nat, fill) + start.parts) by {
                    assert forall|j: int| 0 <= j < self@.parts.len() implies #[trigger] self@.parts[j]
                        == (Seq::new((k + 1) as nat, fill) + start.parts)[j] by {
                        if j == 0 {
                            if k >= cs.len() && k > 0 {
                                assert(before[0].color == fill_color(cs, start.parts[0].color, k - 1));
                            }
                            if k == 0 {
                                assert(before[0] == start.parts[0]);
                            }
                        } else {
                            assert(self@.parts[j] == before[j - 1]);
                        }
                    }
                }
            }
            k += 1;
        }
        proof {
            assert(self@.parts =~= grown_parts(start.parts, n as nat, cs));
        }
        Ok(())
    }
}

/// Walk the snake up, left and down by one point, so that a snake of five or
/// more parts lying on a line bites itself.
pub fn bump_parts(snake: &mut Snake) -> (r: Result<(), GameError>)
    requires
        old(snake)@.parts.len() > 0 ==> fits_i32(old(snake)@.head().y + 1) && fits_i32(
            old(snake)@.head().x - 1,
        ),
    ensures
        fault_of(r) == if old(snake)@.parts.len() == 0 {
            Some(GameErrorView::EmptySnake(old(snake)@.name))
        } else if old(snake)@.parts.len() > 1 && old(snake)@.direction == Direction::Down {
            Some(GameErrorView::ChangeDirectionToOpposite(old(snake)@.name))
        } else {
            None
        },
        r is Err ==> final(snake)@ == old(snake)@,
        r is Ok ==> final(snake)@ == (SnakeView {
            parts: moved_parts(
                moved_parts(moved_parts(old(snake)@.parts, Direction::Up, 1), Direction::Left, 1),
                Direction::Down,
                1,
            ),
            direction: Direction::Down,
            ..old(snake)@
        }),
{
    snake.change_direction(Direction::Up)?;
    snake.move_parts(1)?;
    snake.change_direction(Direction::Left)?;
    snake.move_parts(1)?;
    snake.change_direction(Direction::Down)?;
    snake.move_parts(1)?;
    Ok(())
}

} // verus!

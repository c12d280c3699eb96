//! Errors returned by the world's operations.

use vstd::prelude::*;
use crate::aux::Coordinates;

verus! {

/// Error returned by the world's and the snakes' operations.
#[derive(Debug, Clone)]
pub enum GameError {
    /// No snake has the name held by the variant.
    SnakeNotFound(String),
    /// A snake with the held name cannot be added: the world holds as many
    /// snakes as it may.
    TooMuchSnakes(String),
    /// An apple at the held coordinates cannot be added: the world holds as
    /// many apples as it may.
    TooMuchApples(Coordinates),
    /// The snake with the held name has no parts.
    EmptySnake(String),
    /// A snake with the held name exists already.
    NonUniqueName(String),
    /// The snake with the held name is longer than one part and was asked to
    /// turn 180 degrees.
    ChangeDirectionToOpposite(String),
}

/// What a [`GameError`] says, with names as character sequences.
pub enum GameErrorView {
    SnakeNotFound(Seq<char>),
    TooMuchSnakes(Seq<char>),
    TooMuchApples(Coordinates),
    EmptySnake(Seq<char>),
    NonUniqueName(Seq<char>),
    ChangeDirectionToOpposite(Seq<char>),
}

impl View for GameError {
    type V = GameErrorView;

    open spec fn view(&self) -> GameErrorView {
        match self {
            GameError::SnakeNotFound(n) => GameErrorView::SnakeNotFound(n@),
            GameError::TooMuchSnakes(n) => GameErrorView::TooMuchSnakes(n@),
            GameError::TooMuchApples(c) => GameErrorView::TooMuchApples(*c),
            GameError::EmptySnake(n) => GameErrorView::EmptySnake(n@),
            GameError::NonUniqueName(n) => GameErrorView::NonUniqueName(n@),
            GameError::ChangeDirectionToOpposite(n) => GameErrorView::ChangeDirectionToOpposite(n@),
        }
    }
}

/// The error a result carries, if any.
pub open spec fn fault_of<T>(r: Result<T, GameError>) -> Option<GameErrorView> {
    match r {
        Ok(_) => None,
        Err(e) => Some(e@),
    }
}

/// Returned when a string names no [`Direction`](crate::aux::Direction).
#[derive(Debug, Clone, Copy, PartialEq, Eq, Structural)]
pub struct ParseDirectionError;

/// Returned when a string describes no snake length.
#[derive(Debug, Clone, Copy, PartialEq, Eq, Structural)]
pub struct ParseSnakeLengthError;

} // verus!

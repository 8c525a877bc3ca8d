//! Moves and the errors a rejected move can raise.

use vstd::prelude::*;

use crate::geometry::spec_square_name_idx;
use crate::geometry::square_name_to_idx;
use crate::pieces::Piece;

verus! {

/// Why a requested move was rejected.
#[derive(Clone, Copy, Debug, PartialEq, Eq, Hash, Structural)]
pub enum InvalidMoveErr {
    /// The move text could not be parsed.
    ParseErr,
    /// The origin square is empty or holds an opponent piece.
    NotYourPiece,
    /// The move is not among the legal moves of the position.
    IllegalMove,
    /// A pawn reached the final rank without a promotion choice.
    NoPromotion,
}

/// A move: origin square, destination square, and an optional promotion
/// piece type. Equality includes the promotion field.
#[derive(Clone, Copy, Debug, PartialEq, Eq, Hash, Structural)]
pub struct Move {
    pub from: usize,
    pub to: usize,
    pub promote: Option<Piece>,
}

/// The move named by a four-character string: two square names concatenated.
/// The text form carries no promotion.
pub open spec fn spec_move_from_str(s: Seq<char>) -> Option<Move> {
    if s.len() != 4 {
        None
    } else {
        match (spec_square_name_idx(s.subrange(0, 2)), spec_square_name_idx(s.subrange(2, 4))) {
            (Some(f), Some(t)) => Some(Move { from: f, to: t, promote: None }),
            _ => None,
        }
    }
}

impl Move {
    /// The destination square.
    pub fn to(&self) -> (r: usize)
        ensures
            r == self.to,
    {
        self.to
    }

    /// The origin square.
    pub fn from(&self) -> (r: usize)
        ensures
            r == self.from,
    {
        self.from
    }

    /// The promotion choice, if any.
    pub fn promote(&self) -> (r: Option<Piece>)
        ensures
            r == self.promote,
    {
        self.promote
    }

    /// A plain move between two squares, with no promotion.
    pub fn from_idxs(from: usize, to: usize) -> (r: Move)
        ensures
            r == (Move { from, to, promote: None }),
    {
        Move { from, to, promote: None }
    }

    /// The same move with the given promotion choice.
    #[must_use]
    pub fn with_promote(&self, promote: Option<Piece>) -> (r: Move)
        ensures
            r == (Move { promote, ..*self }),
    {
        Move { promote, ..*self }
    }

    /// Parses a move written as exactly four characters: the origin square
    /// name followed by the destination square name, e.g. "e2e4".
    pub fn from_str(s: &str) -> (r: Option<Move>)
        ensures
            r == spec_move_from_str(s@),
    {
        if s.unicode_len() != 4 {
            return None;
        }
        let from_part = s.substring_char(0, 2);
        let to_part = s.substring_char(2, 4);
        let from = match square_name_to_idx(from_part) {
            Some(f) => f,
            None => { return None; },
        };
        let to = match square_name_to_idx(to_part) {
            Some(t) => t,
            None => { return None; },
        };
        Some(Move { from, to, promote: None })
    }

    /// A move with every field given.
    pub fn new(from: usize, to: usize, promote: Option<Piece>) -> (r: Move)
        ensures
            r == (Move { from, to, promote }),
    {
        Move { from, to, promote }
    }
}

} // verus!

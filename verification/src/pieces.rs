//! The packed piece encoding, the player colors, and the castling-rights set.

use vstd::prelude::*;

verus! {

/// Piece-type code for a king.
pub const KING: u8 = 1;
/// Piece-type code for a pawn.
pub const PAWN: u8 = 2;
/// Piece-type code for a knight.
pub const KNIGHT: u8 = 3;
/// Piece-type code for a bishop.
pub const BISHOP: u8 = 4;
/// Piece-type code for a rook.
pub const ROOK: u8 = 5;
/// Piece-type code for a queen.
pub const QUEEN: u8 = 6;
/// Color bit for a white piece.
pub const WHITE: u8 = 8;
/// Color bit for a black piece.
pub const BLACK: u8 = 16;
/// Mask selecting the piece-type bits of a packed piece code.
pub const TYPE_MASK: u8 = 7;
/// Mask selecting the color bits of a packed piece code.
pub const COLOR_MASK: u8 = 24;

/// A square's content, packed as `color | piece_type` in one byte.
/// The zero value is an empty square.
#[derive(Clone, Copy, Debug, PartialEq, Eq, Hash, Structural)]
pub struct Piece {
    pub code: u8,
}

/// One of the two sides.
#[derive(Clone, Copy, Debug, PartialEq, Eq, Hash, Structural)]
pub enum Player {
    White,
    Black,
}

impl Piece {
    /// The piece-type part of the packed code, as selected by `TYPE_MASK`.
    pub open spec fn kind(self) -> int {
        self.code as int % 8
    }

    /// The color part of the packed code, as selected by `COLOR_MASK`.
    pub open spec fn color_bits(self) -> int {
        ((self.code as int / 8) % 4) * 8
    }

    /// A well-formed square content: empty, or exactly one piece type
    /// and exactly one color.
    pub open spec fn wf(self) -> bool {
        self.code == 0 || {
            &&& self.code < 32
            &&& 1 <= self.kind() <= 6
            &&& (self.color_bits() == WHITE || self.color_bits() == BLACK)
        }
    }

    pub open spec fn is_empty_spec(self) -> bool {
        self.code == 0
    }

    /// Whether the color bit of `p` is set in the packed code.
    pub open spec fn has_color(self, p: Player) -> bool {
        match p {
            Player::White => (self.code as int / 8) % 2 == 1,
            Player::Black => (self.code as int / 16) % 2 == 1,
        }
    }

    /// The empty square.
    pub fn empty() -> (r: Piece)
        ensures
            r.code == 0,
    {
        Piece { code: 0 }
    }

    /// Packs a piece type together with a player's color bit.
    pub fn combine(piece_type: u8, player: Player) -> (r: Piece)
        requires
            1 <= piece_type <= 6,
        ensures
            r.code == piece_type + player.color_bits_spec(),
            r.wf(),
            r.kind() == piece_type,
            r.color_bits() == player.color_bits_spec(),
            !r.is_empty_spec(),
    {
        let color = player.to_piece_color();
        let code = color.code | piece_type;
        proof {
            let c = color.code;
            let t = piece_type;
            assert((c == 8 || c == 16) && t < 8 ==> (c | t) == c + t && (c | t) < 32) by (bit_vector);
        }
        Piece { code }
    }

    /// Strips the color bits, leaving the piece-type code.
    pub fn piece_type(&self) -> (r: u8)
        ensures
            r as int == self.kind(),
    {
        proof {
            let x = self.code;
            assert(x & 7 == x % 8) by (bit_vector);
        }
        self.code & TYPE_MASK
    }

    /// Strips the piece-type bits, leaving the color bits.
    pub fn color(&self) -> (r: u8)
        ensures
            r as int == self.color_bits(),
    {
        proof {
            let x = self.code;
            assert(x & 24 == ((x / 8) % 4) * 8) by (bit_vector);
        }
        self.code & COLOR_MASK
    }

    /// Whether this square holds a piece of player `p`.
    pub fn is_color(&self, p: Player) -> (r: bool)
        ensures
            r == self.has_color(p),
    {
        let mask = p.to_piece_color();
        proof {
            let x = self.code;
            assert((x & 8 != 0) == ((x / 8) % 2 == 1)) by (bit_vector);
            assert((x & 16 != 0) == ((x / 16) % 2 == 1)) by (bit_vector);
        }
        (self.code & mask.code) != 0
    }

    /// Whether this square is empty.
    pub fn is_empty(&self) -> (r: bool)
        ensures
            r == self.is_empty_spec(),
    {
        self.code == 0
    }

    /// Whether the piece slides along rays: queen, rook or bishop.
    pub fn is_sliding(&self) -> (r: bool)
        ensures
            r == (self.kind() == BISHOP || self.kind() == ROOK || self.kind() == QUEEN),
    {
        let t = self.piece_type();
        t == BISHOP || t == ROOK || t == QUEEN
    }

    /// The conventional material value of the piece, negative for Black.
    pub open spec fn score_value_spec(self) -> int {
        let mult: int = if self.color_bits() == WHITE {
            1
        } else if self.color_bits() == BLACK {
            -1
        } else {
            0
        };
        let value: int = if self.kind() == PAWN {
            1
        } else if self.kind() == KNIGHT {
            3
        } else if self.kind() == BISHOP {
            3
        } else if self.kind() == ROOK {
            5
        } else if self.kind() == QUEEN {
            9
        } else {
            0
        };
        value * mult
    }

    /// Material value from White's point of view: pawn 1, knight and bishop 3,
    /// rook 5, queen 9, king and empty 0; negated for Black pieces.
    pub fn score_value(&self) -> (r: i32)
        ensures
            r as int == self.score_value_spec(),
            -9 <= r <= 9,
    {
        let color = self.color();
        let color_mult: i32 = if color == WHITE {
            1
        } else if color == BLACK {
            -1
        } else {
            0
        };
        let t = self.piece_type();
        let value: i32 = if t == PAWN {
            1
        } else if t == KNIGHT {
            3
        } else if t == BISHOP {
            3
        } else if t == ROOK {
            5
        } else if t == QUEEN {
            9
        } else {
            0
        };
        value * color_mult
    }
}

impl Player {
    /// The packed color bit this player stamps on its pieces.
    pub open spec fn color_bits_spec(self) -> int {
        match self {
            Player::White => WHITE as int,
            Player::Black => BLACK as int,
        }
    }

    pub open spec fn spec_other(self) -> Player {
        match self {
            Player::White => Player::Black,
            Player::Black => Player::White,
        }
    }

    /// A piece value holding only this player's color bit, used as a mask.
    pub fn to_piece_color(&self) -> (r: Piece)
        ensures
            r.code as int == self.color_bits_spec(),
    {
        match *self {
            Player::White => Piece { code: WHITE },
            Player::Black => Piece { code: BLACK },
        }
    }

    /// The opposing player.
    pub fn other(&self) -> (r: Player)
        ensures
            r == self.spec_other(),
    {
        match *self {
            Player::White => Player::Black,
            Player::Black => Player::White,
        }
    }
}

/// A proof that a well-formed, non-empty piece carries a player's color bit
/// exactly when its color part equals that player's bit.
pub proof fn lemma_has_color_iff(p: Piece, pl: Player)
    requires
        p.wf(),
    ensures
        p.code != 0 ==> (p.has_color(pl) <==> p.color_bits() == pl.color_bits_spec()),
        p.code == 0 ==> !p.has_color(pl),
{
}

/// A proof that a well-formed, occupied square belongs to one of the two
/// players.
pub proof fn lemma_wf_occupied(p: Piece)
    requires
        p.wf(),
        p.code != 0,
    ensures
        p.has_color(Player::White) || p.has_color(Player::Black),
        !(p.has_color(Player::White) && p.has_color(Player::Black)),
{
    if p.color_bits() == 8 {
        assert(p.code as int / 8 == 1);
    } else {
        assert(p.code as int / 8 == 2);
        assert(p.code as int / 16 == 1);
    }
}

/// A proof that a well-formed piece's packed code is exactly its color
/// part plus its type part.
pub proof fn lemma_wf_decompose(p: Piece)
    requires
        p.wf(),
    ensures
        p.code as int == p.color_bits() + p.kind(),
{
    if p.code != 0 {
        assert((p.code as int / 8) % 4 == p.code as int / 8);
        assert(p.code as int == (p.code as int / 8) * 8 + p.code as int % 8);
    }
}

/// The per-side, per-wing castling availability flags.
/// Rights are only ever cleared, never re-granted.
#[derive(Clone, Copy, Debug, PartialEq, Eq, Hash, Structural)]
pub struct CastleRights {
    pub white_king: bool,
    pub white_queen: bool,
    pub black_king: bool,
    pub black_queen: bool,
}

impl CastleRights {
    /// The set containing no rights.
    pub fn none() -> (r: CastleRights)
        ensures
            r == CastleRights::empty_spec(),
    {
        CastleRights { white_king: false, white_queen: false, black_king: false, black_queen: false }
    }

    pub open spec fn empty_spec() -> CastleRights {
        CastleRights { white_king: false, white_queen: false, black_king: false, black_queen: false }
    }

    /// The set containing all four rights.
    pub fn all() -> (r: CastleRights)
        ensures
            r.white_king && r.white_queen && r.black_king && r.black_queen,
    {
        CastleRights { white_king: true, white_queen: true, black_king: true, black_queen: true }
    }

    /// The singleton set for White's king-side right.
    pub fn white_king_side() -> (r: CastleRights)
        ensures
            r == (CastleRights { white_king: true, white_queen: false, black_king: false, black_queen: false }),
    {
        CastleRights { white_king: true, white_queen: false, black_king: false, black_queen: false }
    }

    /// The singleton set for White's queen-side right.
    pub fn white_queen_side() -> (r: CastleRights)
        ensures
            r == (CastleRights { white_king: false, white_queen: true, black_king: false, black_queen: false }),
    {
        CastleRights { white_king: false, white_queen: true, black_king: false, black_queen: false }
    }

    /// The singleton set for Black's king-side right.
    pub fn black_king_side() -> (r: CastleRights)
        ensures
            r == (CastleRights { white_king: false, white_queen: false, black_king: true, black_queen: false }),
    {
        CastleRights { white_king: false, white_queen: false, black_king: true, black_queen: false }
    }

    /// The singleton set for Black's queen-side right.
    pub fn black_queen_side() -> (r: CastleRights)
        ensures
            r == (CastleRights { white_king: false, white_queen: false, black_king: false, black_queen: true }),
    {
        CastleRights { white_king: false, white_queen: false, black_king: false, black_queen: true }
    }

    /// The union of two sets of rights.
    pub fn union(&self, rhs: CastleRights) -> (r: CastleRights)
        ensures
            r.white_king == (self.white_king || rhs.white_king),
            r.white_queen == (self.white_queen || rhs.white_queen),
            r.black_king == (self.black_king || rhs.black_king),
            r.black_queen == (self.black_queen || rhs.black_queen),
    {
        CastleRights {
            white_king: self.white_king || rhs.white_king,
            white_queen: self.white_queen || rhs.white_queen,
            black_king: self.black_king || rhs.black_king,
            black_queen: self.black_queen || rhs.black_queen,
        }
    }

    pub open spec fn intersects(self, rhs: CastleRights) -> bool {
        ||| (self.white_king && rhs.white_king)
        ||| (self.white_queen && rhs.white_queen)
        ||| (self.black_king && rhs.black_king)
        ||| (self.black_queen && rhs.black_queen)
    }

    /// Whether any of the rights in `rhs` is still held.
    pub fn has_right(&self, rhs: CastleRights) -> (r: bool)
        ensures
            r == self.intersects(rhs),
    {
        (self.white_king && rhs.white_king) || (self.white_queen && rhs.white_queen)
            || (self.black_king && rhs.black_king) || (self.black_queen && rhs.black_queen)
    }

    /// The rights left after clearing those in `rhs`.
    pub open spec fn spec_revoke(self, rhs: CastleRights) -> CastleRights {
        CastleRights {
            white_king: self.white_king && !rhs.white_king,
            white_queen: self.white_queen && !rhs.white_queen,
            black_king: self.black_king && !rhs.black_king,
            black_queen: self.black_queen && !rhs.black_queen,
        }
    }

    /// Clears the rights in `rhs`.
    pub fn revoke(&mut self, rhs: CastleRights)
        ensures
            *final(self) == old(self).spec_revoke(rhs),
    {
        self.white_king = self.white_king && !rhs.white_king;
        self.white_queen = self.white_queen && !rhs.white_queen;
        self.black_king = self.black_king && !rhs.black_king;
        self.black_queen = self.black_queen && !rhs.black_queen;
    }

    /// The rights left after clearing both of one player's rights.
    pub open spec fn spec_revoke_all(self, player: Player) -> CastleRights {
        match player {
            Player::White => CastleRights { white_king: false, white_queen: false, ..self },
            Player::Black => CastleRights { black_king: false, black_queen: false, ..self },
        }
    }

    /// Clears both of `player`'s rights.
    pub fn revoke_all(&mut self, player: Player)
        ensures
            *final(self) == old(self).spec_revoke_all(player),
    {
        match player {
            Player::White => {
                let both = CastleRights::white_king_side().union(CastleRights::white_queen_side());
                self.revoke(both);
            }
            Player::Black => {
                let both = CastleRights::black_king_side().union(CastleRights::black_queen_side());
                self.revoke(both);
            }
        }
    }

    /// Whether `self` is a subset of `rhs`: no right held that `rhs` lacks.
    pub open spec fn subset_of(self, rhs: CastleRights) -> bool {
        &&& (self.white_king ==> rhs.white_king)
        &&& (self.white_queen ==> rhs.white_queen)
        &&& (self.black_king ==> rhs.black_king)
        &&& (self.black_queen ==> rhs.black_queen)
    }
}

} // verus!

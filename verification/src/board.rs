//! The board: 64 packed piece values plus castling rights, the side to
//! move, the en-passant target and the move counters, with the transition
//! that applies a move.

use vstd::prelude::*;

use crate::geometry::on_board;
use crate::geometry::rank_of;
use crate::geometry::spec_rook_castle_pos;
use crate::geometry::get_rook_castle_pos;
use crate::moves::Move;
use crate::pieces::CastleRights;
use crate::pieces::Piece;
use crate::pieces::Player;
use crate::pieces::BISHOP;
use crate::pieces::KING;
use crate::pieces::KNIGHT;
use crate::pieces::PAWN;
use crate::pieces::QUEEN;
use crate::pieces::ROOK;
use crate::pieces::WHITE;
use crate::pieces::BLACK;

verus! {

broadcast use vstd::array::group_array_axioms;

/// A full chess position.
#[derive(Clone, Copy, Debug)]
pub struct Board {
    pub squares: [Piece; 64],
    pub castle_rights: CastleRights,
    pub active_color: Player,
    pub en_passant: Option<usize>,
    pub halfmove: u32,
    pub fullmove: u32,
}

/// The mathematical model of a position.
pub ghost struct BoardState {
    pub squares: Seq<Piece>,
    pub castle_rights: CastleRights,
    pub active_color: Player,
    pub en_passant: Option<int>,
    pub halfmove: u32,
    pub fullmove: u32,
}

impl View for Board {
    type V = BoardState;

    open spec fn view(&self) -> BoardState {
        BoardState {
            squares: self.squares@,
            castle_rights: self.castle_rights,
            active_color: self.active_color,
            en_passant: match self.en_passant {
                Some(i) => Some(i as int),
                None => None,
            },
            halfmove: self.halfmove,
            fullmove: self.fullmove,
        }
    }
}

/// The signed forward step direction of a player's pawns, in ranks.
pub open spec fn spec_forward(p: Player) -> int {
    match p {
        Player::White => 1,
        Player::Black => -1,
    }
}

/// Whether `p` is exactly `pl`'s king.
pub open spec fn is_king_of(p: Piece, pl: Player) -> bool {
    p.code == pl.color_bits_spec() + KING
}

impl BoardState {
    /// The piece on square `i`.
    pub open spec fn piece(self, i: int) -> Piece {
        self.squares[i]
    }

    /// Every square holds a well-formed piece value.
    pub open spec fn wf_squares(self) -> bool {
        &&& self.squares.len() == 64
        &&& forall|i: int| 0 <= i < 64 ==> #[trigger] self.squares[i].wf()
    }

    /// `pl` has a king somewhere on the board.
    pub open spec fn has_king(self, pl: Player) -> bool {
        exists|i: int| 0 <= i < 64 && is_king_of(#[trigger] self.squares[i], pl)
    }

    /// `pl` has at most one king on the board.
    pub open spec fn king_unique(self, pl: Player) -> bool {
        forall|i: int, j: int|
            0 <= i < 64 && 0 <= j < 64 && is_king_of(#[trigger] self.squares[i], pl)
                && is_king_of(#[trigger] self.squares[j], pl) ==> i == j
    }

    /// The square of `pl`'s king; meaningful when a king exists.
    pub open spec fn king_sq(self, pl: Player) -> int {
        choose|i: int| 0 <= i < 64 && is_king_of(#[trigger] self.squares[i], pl)
    }

    /// The en-passant target, when set, is the square an enemy pawn just
    /// skipped: an empty square on the proper rank with the double-pushed
    /// opponent pawn one rank behind it (seen from the side to move).
    pub open spec fn ep_ok(self) -> bool {
        match self.en_passant {
            None => true,
            Some(t) => {
                let fv = spec_forward(self.active_color);
                &&& 0 <= t < 64
                &&& rank_of(t) == if self.active_color is White { 5int } else { 2int }
                &&& self.squares[t].code == 0
                &&& self.squares[t - fv * 8].code
                    == self.active_color.spec_other().color_bits_spec() + PAWN
            },
        }
    }

    /// A held castling right implies the bound king and rook still stand
    /// on their home squares: rights are revoked the moment either moves
    /// or is captured there.
    pub open spec fn rights_ok(self) -> bool {
        &&& ((self.castle_rights.white_king || self.castle_rights.white_queen)
            ==> self.squares[4].code == WHITE + KING)
        &&& (self.castle_rights.white_king ==> self.squares[7].code == WHITE + ROOK)
        &&& (self.castle_rights.white_queen ==> self.squares[0].code == WHITE + ROOK)
        &&& ((self.castle_rights.black_king || self.castle_rights.black_queen)
            ==> self.squares[60].code == BLACK + KING)
        &&& (self.castle_rights.black_king ==> self.squares[63].code == BLACK + ROOK)
        &&& (self.castle_rights.black_queen ==> self.squares[56].code == BLACK + ROOK)
    }

    /// The precondition under which the engine operates: well-formed piece
    /// values, exactly one king of each color, a consistent en-passant
    /// record, and castling rights consistent with the king positions.
    pub open spec fn wf(self) -> bool {
        &&& self.wf_squares()
        &&& self.has_king(Player::White)
        &&& self.king_unique(Player::White)
        &&& self.has_king(Player::Black)
        &&& self.king_unique(Player::Black)
        &&& self.ep_ok()
        &&& self.rights_ok()
    }
}

/// Clears the specific castling right bound to a rook home square, when the
/// event square is that home square and the rook still stands there.
pub open spec fn spec_revoke_rook_square(cr: CastleRights, s: BoardState, sq: int) -> CastleRights {
    if sq == 0 && s.squares[0].code == WHITE + ROOK {
        cr.spec_revoke(CastleRights { white_king: false, white_queen: true, black_king: false, black_queen: false })
    } else if sq == 7 && s.squares[7].code == WHITE + ROOK {
        cr.spec_revoke(CastleRights { white_king: true, white_queen: false, black_king: false, black_queen: false })
    } else if sq == 56 && s.squares[56].code == BLACK + ROOK {
        cr.spec_revoke(CastleRights { white_king: false, white_queen: false, black_king: false, black_queen: true })
    } else if sq == 63 && s.squares[63].code == BLACK + ROOK {
        cr.spec_revoke(CastleRights { white_king: false, white_queen: false, black_king: true, black_queen: false })
    } else {
        cr
    }
}

/// The castling rights left after a move: both of a color's rights go when
/// that color's king moves or is captured on its home square, and a single
/// right goes when the bound rook moves from, or is captured on, its home
/// square.
pub open spec fn spec_rights_after(s: BoardState, m: Move) -> CastleRights {
    let mover = s.squares[m.from as int];
    let cr0 = s.castle_rights;
    let cr1 = if mover.kind() == KING {
        cr0.spec_revoke_all(s.active_color)
    } else {
        cr0
    };
    let cr2 = if m.to == 4 && s.squares[4].code == WHITE + KING {
        cr1.spec_revoke_all(Player::White)
    } else {
        cr1
    };
    let cr3 = if m.to == 60 && s.squares[60].code == BLACK + KING {
        cr2.spec_revoke_all(Player::Black)
    } else {
        cr2
    };
    let cr4 = spec_revoke_rook_square(cr3, s, m.from as int);
    spec_revoke_rook_square(cr4, s, m.to as int)
}

/// What a move application is allowed to assume of its move: both squares
/// on the board, a pawn double push going the mover's way, and a usable
/// promotion choice wherever a pawn reaches the final rank.
pub open spec fn spec_can_apply(s: BoardState, m: Move) -> bool {
    let mover = s.squares[m.from as int];
    let dist = m.to as int - m.from as int;
    let fv = spec_forward(s.active_color);
    &&& s.squares.len() == 64
    &&& m.from < 64
    &&& m.to < 64
    &&& (mover.kind() == PAWN && (dist == 16 || dist == -16) ==> dist == fv * 16)
    &&& (mover.kind() == PAWN && (rank_of(m.to as int) == 0 || rank_of(m.to as int) == 7)
        ==> (m.promote matches Some(p) && 1 <= p.kind() <= 6))
}

/// The atomic transition of a validated move, per the make-move contract:
/// en-passant capture and bookkeeping, the castling rook relocation,
/// castling-rights revocation, promotion, the piece relocation itself, and
/// the color flip. The move counters are untouched.
pub open spec fn spec_apply(s: BoardState, m: Move) -> BoardState {
    let mover = s.squares[m.from as int];
    let active = s.active_color;
    let fv = spec_forward(active);
    let dist = m.to as int - m.from as int;
    // a pawn landing on the en-passant target captures the pawn behind it
    let behind = m.to as int - fv * 8;
    let sq1 = if mover.kind() == PAWN && s.en_passant == Some(m.to as int) && on_board(behind) {
        s.squares.update(behind, Piece { code: 0 })
    } else {
        s.squares
    };
    // a pawn double push records the skipped square; anything else clears it
    let ep2: Option<int> = if mover.kind() == PAWN && (dist == 16 || dist == -16) {
        Some(m.to as int - fv * 8)
    } else {
        None
    };
    // a king moving two files drags the wing's rook along
    let sq2 = if mover.kind() == KING && (dist == 2 || dist == -2) {
        let (rf, rt) = spec_rook_castle_pos(active, dist > 0);
        sq1.update(rt as int, sq1[rf as int]).update(rf as int, Piece { code: 0 })
    } else {
        sq1
    };
    let cr = spec_rights_after(s, m);
    // a pawn on the final rank becomes the chosen piece in the mover's color
    let placed = if mover.kind() == PAWN && (rank_of(m.to as int) == 0 || rank_of(m.to as int) == 7) {
        match m.promote {
            Some(p) => Piece { code: (active.color_bits_spec() + p.kind()) as u8 },
            None => mover,
        }
    } else {
        mover
    };
    let sq3 = sq2.update(m.to as int, placed).update(m.from as int, Piece { code: 0 });
    BoardState {
        squares: sq3,
        castle_rights: cr,
        active_color: active.spec_other(),
        en_passant: ep2,
        halfmove: s.halfmove,
        fullmove: s.fullmove,
    }
}

impl PartialEq for Board {
    /// Two boards are equal when every square and every field agrees.
    fn eq(&self, other: &Board) -> (r: bool)
        ensures
            r == (self@ == other@),
    {
        let mut i: usize = 0;
        while i < 64
            invariant
                i <= 64,
                forall|j: int| 0 <= j < i ==> self@.squares[j] == other@.squares[j],
            decreases 64 - i,
        {
            if self.squares[i].code != other.squares[i].code {
                proof {
                    assert(self@.squares[i as int] != other@.squares[i as int]);
                    assert(self@.squares != other@.squares);
                    assert(self@ != other@);
                }
                return false;
            }
            i += 1;
        }
        proof {
            assert(self@.squares =~= other@.squares);
        }
        let ep_eq = match (self.en_passant, other.en_passant) {
            (None, None) => true,
            (Some(a), Some(b)) => a == b,
            _ => false,
        };
        ep_eq && self.castle_rights == other.castle_rights && self.active_color
            == other.active_color && self.halfmove == other.halfmove && self.fullmove
            == other.fullmove
    }
}

impl vstd::std_specs::cmp::PartialEqSpecImpl for Board {
    open spec fn obeys_eq_spec() -> bool {
        true
    }

    open spec fn eq_spec(&self, other: &Board) -> bool {
        self@ == other@
    }
}

/// The piece type on the back rank at file `f` in the standard start:
/// rooks in the corners, then knights, then bishops, queen on file 3,
/// king on file 4.
pub open spec fn spec_back_kind(f: int) -> int {
    if f == 0 || f == 7 {
        ROOK as int
    } else if f == 1 || f == 6 {
        KNIGHT as int
    } else if f == 2 || f == 5 {
        BISHOP as int
    } else if f == 3 {
        QUEEN as int
    } else {
        KING as int
    }
}

/// The packed code on square `i` in the standard starting arrangement.
pub open spec fn spec_start_code(i: int) -> int {
    if 0 <= i < 8 {
        WHITE + spec_back_kind(i)
    } else if 8 <= i < 16 {
        WHITE + PAWN
    } else if 48 <= i < 56 {
        BLACK + PAWN
    } else if 56 <= i < 64 {
        BLACK + spec_back_kind(i - 56)
    } else {
        0
    }
}

/// The standard starting position: all rights held, White to move, no
/// en-passant target, counters 0 and 1.
pub open spec fn spec_start_state() -> BoardState {
    BoardState {
        squares: Seq::new(64, |i: int| Piece { code: spec_start_code(i) as u8 }),
        castle_rights: CastleRights { white_king: true, white_queen: true, black_king: true, black_queen: true },
        active_color: Player::White,
        en_passant: None,
        halfmove: 0,
        fullmove: 1,
    }
}

impl Board {
    /// The standard starting position.
    pub fn new() -> (r: Board)
        ensures
            r@ == spec_start_state(),
            r@.wf(),
            r@.wf_squares(),
    {
        let mut b = Board::empty();
        b.castle_rights = CastleRights::all();
        b.squares[0] = Piece::combine(ROOK, Player::White);
        b.squares[1] = Piece::combine(KNIGHT, Player::White);
        b.squares[2] = Piece::combine(BISHOP, Player::White);
        b.squares[3] = Piece::combine(QUEEN, Player::White);
        b.squares[4] = Piece::combine(KING, Player::White);
        b.squares[5] = Piece::combine(BISHOP, Player::White);
        b.squares[6] = Piece::combine(KNIGHT, Player::White);
        b.squares[7] = Piece::combine(ROOK, Player::White);
        b.squares[56] = Piece::combine(ROOK, Player::Black);
        b.squares[57] = Piece::combine(KNIGHT, Player::Black);
        b.squares[58] = Piece::combine(BISHOP, Player::Black);
        b.squares[59] = Piece::combine(QUEEN, Player::Black);
        b.squares[60] = Piece::combine(KING, Player::Black);
        b.squares[61] = Piece::combine(BISHOP, Player::Black);
        b.squares[62] = Piece::combine(KNIGHT, Player::Black);
        b.squares[63] = Piece::combine(ROOK, Player::Black);
        let ghost mid = b@.squares;
        let mut f: usize = 0;
        while f < 8
            invariant
                f <= 8,
                b@.squares.len() == 64,
                mid.len() == 64,
                forall|j: int|
                    0 <= j < 64 && !(8 <= j < 8 + f) && !(48 <= j < 48 + f)
                        ==> b@.squares[j] == mid[j],
                forall|j: int| 8 <= j < 8 + f ==> #[trigger] b@.squares[j].code == WHITE + PAWN,
                forall|j: int| 48 <= j < 48 + f ==> #[trigger] b@.squares[j].code == BLACK + PAWN,
                b.castle_rights == (CastleRights { white_king: true, white_queen: true, black_king: true, black_queen: true }),
                b.active_color == Player::White,
                b.en_passant is None,
                b.halfmove == 0,
                b.fullmove == 1,
            decreases 8 - f,
        {
            b.squares[8 + f] = Piece::combine(PAWN, Player::White);
            b.squares[48 + f] = Piece::combine(PAWN, Player::Black);
            f += 1;
        }
        proof {
            assert forall|i: int| 0 <= i < 64 implies b@.squares[i]
                == spec_start_state().squares[i] by {
                assert(spec_start_state().squares[i] == Piece { code: spec_start_code(i) as u8 });
                if 8 <= i < 16 {
                    assert(b@.squares[i].code == WHITE + PAWN);
                } else if 48 <= i < 56 {
                    assert(b@.squares[i].code == BLACK + PAWN);
                } else {
                    assert(b@.squares[i] == mid[i]);
                    assert(mid[i].code == spec_start_code(i));
                }
                assert(b@.squares[i].code == spec_start_code(i));
            }
            assert(b@.squares =~= spec_start_state().squares);
            assert(b@ == spec_start_state());
            assert forall|i: int| 0 <= i < 64 implies #[trigger] b@.squares[i].wf() by {
                assert(b@.squares[i].code == spec_start_code(i));
            }
            assert(is_king_of(b@.squares[4], Player::White));
            assert(is_king_of(b@.squares[60], Player::Black));
            assert forall|i: int, j: int|
                0 <= i < 64 && 0 <= j < 64 && is_king_of(#[trigger] b@.squares[i], Player::White)
                    && is_king_of(#[trigger] b@.squares[j], Player::White) implies i == j by {
                assert(b@.squares[i].code == spec_start_code(i));
                assert(b@.squares[j].code == spec_start_code(j));
            }
            assert forall|i: int, j: int|
                0 <= i < 64 && 0 <= j < 64 && is_king_of(#[trigger] b@.squares[i], Player::Black)
                    && is_king_of(#[trigger] b@.squares[j], Player::Black) implies i == j by {
                assert(b@.squares[i].code == spec_start_code(i));
                assert(b@.squares[j].code == spec_start_code(j));
            }
        }
        b
    }

    /// A board with no pieces, no rights, White to move, counters 0 and 1.
    pub fn empty() -> (r: Board)
        ensures
            r@.squares.len() == 64,
            forall|i: int| 0 <= i < 64 ==> #[trigger] r@.squares[i].code == 0,
            r@.castle_rights == CastleRights::empty_spec(),
            r@.active_color == Player::White,
            r@.en_passant is None,
            r@.halfmove == 0,
            r@.fullmove == 1,
    {
        Board {
            squares: [Piece { code: 0 }; 64],
            castle_rights: CastleRights::none(),
            active_color: Player::White,
            en_passant: None,
            halfmove: 0,
            fullmove: 1,
        }
    }

    /// The side to move.
    pub fn active_color(&self) -> (r: Player)
        ensures
            r == self@.active_color,
    {
        self.active_color
    }

    /// The square of `player`'s king: the first square holding it.
    /// A position without that king is a violated precondition.
    pub fn find_king(&self, player: Player) -> (r: usize)
        requires
            self@.has_king(player),
        ensures
            r < 64,
            is_king_of(self@.squares[r as int], player),
            forall|j: int| 0 <= j < r ==> !is_king_of(#[trigger] self@.squares[j], player),
            self@.king_unique(player) ==> r as int == self@.king_sq(player),
    {
        let mask = player.to_piece_color();
        let target: u8 = mask.code + KING;
        let mut i: usize = 0;
        while i < 64
            invariant
                i <= 64,
                target as int == player.color_bits_spec() + KING,
                self@.has_king(player),
                forall|j: int| 0 <= j < i ==> !is_king_of(#[trigger] self@.squares[j], player),
            decreases 64 - i,
        {
            if self.squares[i].code == target {
                proof {
                    if self@.king_unique(player) {
                        let k = self@.king_sq(player);
                        assert(0 <= k < 64 && is_king_of(self@.squares[k], player));
                    }
                }
                return i;
            }
            i += 1;
        }
        proof {
            assert(false);
        }
        0
    }

    /// The piece at the given zero-indexed rank and file, when both land
    /// on the board.
    pub fn piece_at(&self, rank: usize, file: usize) -> (r: Option<Piece>)
        ensures
            rank * 8 + file < 64 ==> r == Some(self@.squares[rank as int * 8 + file as int]),
            rank * 8 + file >= 64 ==> r is None,
    {
        if rank < 8 && file < 64 {
            let idx = rank * 8 + file;
            if idx < 64 {
                Some(self.squares[idx])
            } else {
                None
            }
        } else {
            proof {
                assert(rank >= 8 ==> rank * 8 >= 64) by (nonlinear_arith);
            }
            None
        }
    }

    /// The piece at a square index on the board.
    pub fn piece_at_idx(&self, idx: usize) -> (r: Piece)
        requires
            idx < 64,
        ensures
            r == self@.squares[idx as int],
    {
        self.squares[idx]
    }

    /// Applies a validated move as one atomic transition.
    #[verifier::rlimit(100)]
    #[verifier::spinoff_prover]
    pub(crate) fn make_move_unchecked(&mut self, umove: Move)
        requires
            spec_can_apply(old(self)@, umove),
        ensures
            final(self)@ == spec_apply(old(self)@, umove),
    {
        let ghost s0 = self@;
        let orig = self.squares;
        let mover = orig[umove.from];
        let active = self.active_color;
        let is_pawn = mover.piece_type() == PAWN;
        let is_king = mover.piece_type() == KING;
        let dist = umove.to as isize - umove.from as isize;

        // a pawn capture on the en-passant target takes the pawn behind it
        let ep_hit = is_pawn && match self.en_passant {
            Some(e) => e == umove.to,
            None => false,
        };
        if ep_hit {
            let behind = umove.to as isize - active.forward_value() * 8;
            if behind >= 0 && behind < 64 {
                self.squares[behind as usize] = Piece { code: 0 };
            }
        }

        // record or clear the en-passant target
        if is_pawn && (dist == 16 || dist == -16) {
            let skipped = (umove.to as isize - active.forward_value() * 8) as usize;
            self.en_passant = Some(skipped);
        } else {
            self.en_passant = None;
        }

        // relocate the rook of a castle
        if is_king && (dist == 2 || dist == -2) {
            let (rf, rt) = get_rook_castle_pos(active, dist > 0);
            self.squares[rt] = self.squares[rf];
            self.squares[rf] = Piece { code: 0 };
        }

        // revoke castling rights
        if is_king {
            self.castle_rights.revoke_all(active);
        }
        if umove.to == 4 && orig[4].code == WHITE + KING {
            self.castle_rights.revoke_all(Player::White);
        }
        if umove.to == 60 && orig[60].code == BLACK + KING {
            self.castle_rights.revoke_all(Player::Black);
        }
        self.revoke_rook_square(&orig, umove.from);
        self.revoke_rook_square(&orig, umove.to);

        // move the piece, promoting a pawn on the final rank
        let to_rank = umove.to / 8;
        let placed = if is_pawn && (to_rank == 0 || to_rank == 7) {
            match umove.promote {
                Some(p) => Piece::combine(p.piece_type(), active),
                None => mover,
            }
        } else {
            mover
        };
        self.squares[umove.to] = placed;
        self.squares[umove.from] = Piece { code: 0 };
        self.active_color = active.other();
        proof {
            assert(self@.squares =~= spec_apply(s0, umove).squares);
            assert(self@ == spec_apply(s0, umove));
        }
    }

    /// Clears the castling right bound to a rook home square when the event
    /// square is that home square and the rook still stands there in `orig`.
    fn revoke_rook_square(&mut self, orig: &[Piece; 64], sq: usize)
        requires
            old(self)@.squares.len() == 64,
        ensures
            final(self).castle_rights == spec_revoke_rook_square(
                old(self).castle_rights,
                BoardState { squares: orig@, ..old(self)@ },
                sq as int,
            ),
            final(self).squares == old(self).squares,
            final(self).active_color == old(self).active_color,
            final(self).en_passant == old(self).en_passant,
            final(self).halfmove == old(self).halfmove,
            final(self).fullmove == old(self).fullmove,
    {
        if sq == 0 && orig[0].code == WHITE + ROOK {
            self.castle_rights.revoke(CastleRights::white_queen_side());
        } else if sq == 7 && orig[7].code == WHITE + ROOK {
            self.castle_rights.revoke(CastleRights::white_king_side());
        } else if sq == 56 && orig[56].code == BLACK + ROOK {
            self.castle_rights.revoke(CastleRights::black_queen_side());
        } else if sq == 63 && orig[63].code == BLACK + ROOK {
            self.castle_rights.revoke(CastleRights::black_king_side());
        }
    }
}

} // verus!

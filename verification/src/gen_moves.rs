//! Legal-move generation. Each piece's pseudo-legal moves are produced in
//! a fixed order, and every candidate passes a king-safety filter: the
//! move is applied to a scratch copy, and discarded when it would leave
//! the mover's own king on an attacked square.

use vstd::prelude::*;

use crate::board::spec_apply;
use crate::board::spec_can_apply;
use crate::board::spec_forward;
use crate::board::Board;
use crate::board::BoardState;
use crate::gen_attacks::knight_jump;
use crate::gen_attacks::knight_shape;
use crate::gen_attacks::ray_clear;
use crate::gen_attacks::ray_sq;
use crate::gen_attacks::spec_attacked;
use crate::gen_attacks::spec_in_check;
use crate::gen_attacks::spec_king_threat;
use crate::gen_attacks::spec_knight_threat;
use crate::gen_attacks::spec_pawn_threat;
use crate::gen_attacks::spec_ray_attacks;
use crate::gen_attacks::spec_sliding_threat;
use crate::gen_attacks::spec_threatens;
use crate::gen_attacks::kind_has_dir;
use crate::gen_attacks::sq_empty;
use crate::geometry::file_of;
use crate::geometry::lemma_rank_file;
use crate::geometry::lemma_ray_step;
use crate::geometry::on_board;
use crate::geometry::rank_of;
use crate::geometry::squares_to_edge;
use crate::geometry::ste;
use crate::geometry::Direction;
use crate::moves::Move;
use crate::pieces::lemma_has_color_iff;
use crate::pieces::lemma_wf_occupied;
use crate::pieces::CastleRights;
use crate::pieces::Piece;
use crate::pieces::Player;
use crate::pieces::BISHOP;
use crate::pieces::KING;
use crate::pieces::KNIGHT;
use crate::pieces::PAWN;
use crate::pieces::QUEEN;
use crate::pieces::ROOK;

verus! {

broadcast use {
    vstd::array::group_array_axioms,
    vstd::seq_lib::group_seq_lib_default,
    vstd::seq_lib::lemma_seq_concat_contains_all_elements,
};

/// A move keeps the mover's king safe: after applying it, the new side to
/// move does not attack the square of the mover's king.
#[verifier::opaque]
pub open spec fn spec_keeps_king_safe(s: BoardState, m: Move) -> bool {
    let s2 = spec_apply(s, m);
    !spec_attacked(s2, s2.active_color, s2.king_sq(s2.active_color.spec_other()))
}

/// The king-safety filter: a candidate is emitted only when it keeps the
/// mover's king safe.
pub open spec fn emit(s: BoardState, m: Move) -> Seq<Move> {
    if spec_keeps_king_safe(s, m) {
        seq![m]
    } else {
        Seq::empty()
    }
}

/// Sequence concatenation is associative.
pub proof fn lemma_add_assoc(a: Seq<Move>, b: Seq<Move>, c: Seq<Move>)
    ensures
        (a + b) + c == a + (b + c),
{
    assert((a + b) + c =~= a + (b + c));
}

/// The moves of a slider on `origin` along direction `d`, from ray step
/// `n + 1` out to step `k`: step outward, stop before a friendly piece,
/// stop after capturing an enemy piece.
pub open spec fn spec_sliding_ray(s: BoardState, origin: int, d: Direction, n: int, k: int) -> Seq<
    Move,
>
    decreases k - n,
{
    if n >= k {
        Seq::empty()
    } else {
        let t = ray_sq(origin, d, n + 1);
        let m = Move { from: origin as usize, to: t as usize, promote: None };
        if s.squares[t].has_color(s.active_color) {
            Seq::empty()
        } else if s.squares[t].has_color(s.active_color.spec_other()) {
            emit(s, m)
        } else {
            emit(s, m) + spec_sliding_ray(s, origin, d, n + 1, k)
        }
    }
}

pub open spec fn spec_full_ray(s: BoardState, origin: int, d: Direction) -> Seq<Move> {
    spec_sliding_ray(s, origin, d, 0, ste(origin, d))
}

/// A slider's moves: rook directions north, south, west, east first, then
/// bishop diagonals; a queen takes all eight in that order.
pub open spec fn spec_sliding_moves(s: BoardState, at: int) -> Seq<Move> {
    let kind = s.squares[at].kind();
    (if kind == ROOK || kind == QUEEN {
        spec_full_ray(s, at, Direction::North) + spec_full_ray(s, at, Direction::South)
            + spec_full_ray(s, at, Direction::West) + spec_full_ray(s, at, Direction::East)
    } else {
        Seq::empty()
    }) + (if kind == BISHOP || kind == QUEEN {
        spec_full_ray(s, at, Direction::NorthWest) + spec_full_ray(s, at, Direction::SouthEast)
            + spec_full_ray(s, at, Direction::NorthEast) + spec_full_ray(s, at, Direction::SouthWest)
    } else {
        Seq::empty()
    })
}

/// One knight offset: legal when both components stay on the board and the
/// target holds no friendly piece.
pub open spec fn spec_knight_one(s: BoardState, at: int, dx: int, dy: int) -> Seq<Move> {
    let t = at + dy * 8 + dx;
    if 0 <= file_of(at) + dx < 8 && 0 <= rank_of(at) + dy < 8 && !s.squares[t].has_color(
        s.active_color,
    ) {
        emit(s, Move { from: at as usize, to: t as usize, promote: None })
    } else {
        Seq::empty()
    }
}

/// The eight knight offsets, in their fixed order.
pub open spec fn spec_knight_moves(s: BoardState, at: int) -> Seq<Move> {
    spec_knight_one(s, at, -2, 1) + spec_knight_one(s, at, -1, 2) + spec_knight_one(s, at, 1, 2)
        + spec_knight_one(s, at, 2, 1) + spec_knight_one(s, at, 2, -1) + spec_knight_one(
        s,
        at,
        1,
        -2,
    ) + spec_knight_one(s, at, -1, -2) + spec_knight_one(s, at, -2, -1)
}

/// A pawn move landing on the farthest rank expands into the four
/// promotion variants, knight, bishop, rook, queen, replacing the plain
/// move.
pub open spec fn spec_pawn_emit(s: BoardState, m: Move) -> Seq<Move> {
    if rank_of(m.to as int) == 0 || rank_of(m.to as int) == 7 {
        emit(s, m.spec_with_promote(KNIGHT)) + emit(s, m.spec_with_promote(BISHOP)) + emit(
            s,
            m.spec_with_promote(ROOK),
        ) + emit(s, m.spec_with_promote(QUEEN))
    } else {
        emit(s, m)
    }
}

impl Move {
    pub open spec fn spec_with_promote(self, kind: u8) -> Move {
        Move { promote: Some(Piece { code: kind }), ..self }
    }
}

/// A pawn's moves, in order: the west diagonal capture, the east diagonal
/// capture (a capture of an enemy piece, or a landing on the en-passant
/// target), the single push to an empty square, and the double push from
/// the starting rank across an empty intermediate square.
pub open spec fn spec_pawn_moves(s: BoardState, at: int) -> Seq<Move> {
    let a = s.active_color;
    let fv = spec_forward(a);
    if !(0 <= rank_of(at) + fv < 8) {
        Seq::empty()
    } else {
        let fwd = at + fv * 8;
        let west = if file_of(at) >= 1 && (s.squares[fwd - 1].has_color(a.spec_other())
            || s.en_passant == Some(fwd - 1)) {
            spec_pawn_emit(s, Move { from: at as usize, to: (fwd - 1) as usize, promote: None })
        } else {
            Seq::empty()
        };
        let east = if file_of(at) <= 6 && (s.squares[fwd + 1].has_color(a.spec_other())
            || s.en_passant == Some(fwd + 1)) {
            spec_pawn_emit(s, Move { from: at as usize, to: (fwd + 1) as usize, promote: None })
        } else {
            Seq::empty()
        };
        let pushes = if s.squares[fwd].code == 0 {
            spec_pawn_emit(s, Move { from: at as usize, to: fwd as usize, promote: None }) + (
            if ((a is White && rank_of(at) == 1) || (a is Black && rank_of(at) == 6))
                && s.squares[at + fv * 16].code == 0 {
                spec_pawn_emit(
                    s,
                    Move { from: at as usize, to: (at + fv * 16) as usize, promote: None },
                )
            } else {
                Seq::empty()
            })
        } else {
            Seq::empty()
        };
        west + east + pushes
    }
}

/// One king step: legal when it stays on the board and the target holds no
/// friendly piece.
pub open spec fn spec_king_step(s: BoardState, at: int, d: Direction) -> Seq<Move> {
    let t = ray_sq(at, d, 1);
    if ste(at, d) >= 1 && !s.squares[t].has_color(s.active_color) {
        emit(s, Move { from: at as usize, to: t as usize, promote: None })
    } else {
        Seq::empty()
    }
}

/// The castling right needed to castle toward `d`.
pub open spec fn spec_castle_right(a: Player, d: Direction) -> CastleRights {
    match (a, d) {
        (Player::White, Direction::West) => CastleRights {
            white_king: false,
            white_queen: true,
            black_king: false,
            black_queen: false,
        },
        (Player::White, Direction::East) => CastleRights {
            white_king: true,
            white_queen: false,
            black_king: false,
            black_queen: false,
        },
        (Player::Black, Direction::West) => CastleRights {
            white_king: false,
            white_queen: false,
            black_king: false,
            black_queen: true,
        },
        (Player::Black, Direction::East) => CastleRights {
            white_king: false,
            white_queen: false,
            black_king: true,
            black_queen: false,
        },
        _ => CastleRights { white_king: false, white_queen: false, black_king: false, black_queen: false },
    }
}

/// A castle toward `d` from the king's square `at`: the right must still
/// be held, the king's own square and both squares it crosses must be free
/// of enemy attack, every square between king and rook must be empty, and
/// the destination two files over must be empty. The rook relocation is a
/// side effect of applying the move, not a move of its own.
pub open spec fn spec_castle(s: BoardState, at: int, d: Direction) -> Seq<Move> {
    let a = s.active_color;
    let right = spec_castle_right(a, d);
    let off = d.offset_spec();
    let dest = at + 2 * off;
    let between_empty = if d is East {
        s.squares[at + 1].code == 0 && s.squares[at + 2].code == 0
    } else {
        s.squares[at - 1].code == 0 && s.squares[at - 2].code == 0 && s.squares[at - 3].code == 0
    };
    if s.castle_rights.intersects(right) && !spec_attacked(s, a.spec_other(), at) && !spec_attacked(
        s,
        a.spec_other(),
        at + off,
    ) && !spec_attacked(s, a.spec_other(), at + 2 * off) && between_empty && s.squares[dest].code
        == 0 {
        emit(s, Move { from: at as usize, to: dest as usize, promote: None })
    } else {
        Seq::empty()
    }
}

/// A king's moves: the eight adjacent steps in the fixed direction order,
/// then the queen-side castle, then the king-side castle.
pub open spec fn spec_king_moves(s: BoardState, at: int) -> Seq<Move> {
    spec_king_step(s, at, Direction::North) + spec_king_step(s, at, Direction::South)
        + spec_king_step(s, at, Direction::West) + spec_king_step(s, at, Direction::East)
        + spec_king_step(s, at, Direction::NorthWest) + spec_king_step(s, at, Direction::SouthEast)
        + spec_king_step(s, at, Direction::NorthEast) + spec_king_step(s, at, Direction::SouthWest)
        + spec_castle(s, at, Direction::West) + spec_castle(s, at, Direction::East)
}

/// The legal moves of the piece on `idx`: empty unless the square holds a
/// piece of the side to move; dispatched by piece kind.
pub open spec fn spec_moves_for(s: BoardState, idx: int) -> Seq<Move> {
    let p = s.squares[idx];
    if !p.has_color(s.active_color) {
        Seq::empty()
    } else {
        let k = p.kind();
        if k == BISHOP || k == ROOK || k == QUEEN {
            spec_sliding_moves(s, idx)
        } else if k == KNIGHT {
            spec_knight_moves(s, idx)
        } else if k == PAWN {
            spec_pawn_moves(s, idx)
        } else if k == KING {
            spec_king_moves(s, idx)
        } else {
            Seq::empty()
        }
    }
}

/// The legal moves of the side to move whose origin square is below `n`,
/// in square order.
pub open spec fn spec_legal_upto(s: BoardState, n: int) -> Seq<Move>
    decreases n,
{
    if n <= 0 {
        Seq::empty()
    } else {
        spec_legal_upto(s, n - 1) + spec_moves_for(s, n - 1)
    }
}

/// All legal moves of the side to move, in square order.
pub open spec fn spec_legal_moves(s: BoardState) -> Seq<Move> {
    spec_legal_upto(s, 64)
}

/// Applying a candidate move of the side to move preserves well-formed
/// squares and keeps exactly one king of the mover's color on the board.
pub proof fn lemma_apply_mover_king(s: BoardState, m: Move)
    requires
        s.wf(),
        spec_can_apply(s, m),
        s.squares[m.from as int].has_color(s.active_color),
        !s.squares[m.to as int].has_color(s.active_color),
        (m.promote matches Some(p) ==> 3 <= p.kind() <= 6),
        (s.squares[m.from as int].kind() == KING && (m.to as int - m.from as int == 2 || m.to as int
            - m.from as int == -2)) ==> m.from as int == (if s.active_color is White {
            4int
        } else {
            60
        }),
    ensures
        spec_apply(s, m).wf_squares(),
        spec_apply(s, m).has_king(s.active_color),
        spec_apply(s, m).king_unique(s.active_color),
        spec_apply(s, m).active_color == s.active_color.spec_other(),
{
    let s2 = spec_apply(s, m);
    let a = s.active_color;
    let mover = s.squares[m.from as int];
    assert(mover.wf());
    assert(mover.code != 0);
    lemma_wf_occupied(mover);
    lemma_has_color_iff(mover, a);
    let k = s.king_sq(a);
    assert(s.has_king(a));
    assert(0 <= k < 64 && crate::board::is_king_of(s.squares[k], a));
    let k2: int = if m.from as int == k {
        m.to as int
    } else {
        k
    };
    // where the en-passant capture lands, when it fires, is never a corner
    // nor a king: it holds the opponent's double-pushed pawn
    let fv = spec_forward(a);
    let behind = m.to as int - fv * 8;
    if mover.kind() == PAWN && s.en_passant == Some(m.to as int) {
        assert(s.ep_ok());
        assert(s.squares[behind].code == a.spec_other().color_bits_spec() + PAWN);
        assert(rank_of(m.to as int) == if a is White { 5int } else { 2int });
        lemma_rank_file(behind, rank_of(m.to as int) - fv, file_of(m.to as int));
        assert(behind != 0 && behind != 7 && behind != 56 && behind != 63);
    }
    // the mover is the king exactly when it starts on the king's square
    if mover.kind() == KING {
        assert(crate::board::is_king_of(mover, a));
        assert(m.from as int == k);
    }
    if m.from as int == k {
        assert(mover.kind() == KING);
    }
    assert forall|i: int| 0 <= i < 64 implies #[trigger] s2.squares[i].wf() by {
        assert(s.squares[i].wf());
        if i == m.to as int {
            if mover.kind() == PAWN && (rank_of(m.to as int) == 0 || rank_of(m.to as int) == 7) {
                assert(s2.squares[i].wf());
            }
        }
    }
    assert(crate::board::is_king_of(s2.squares[k2], a));
    assert forall|i: int, j: int|
        0 <= i < 64 && 0 <= j < 64 && crate::board::is_king_of(#[trigger] s2.squares[i], a)
            && crate::board::is_king_of(#[trigger] s2.squares[j], a) implies i == j by {
        assert forall|w: int|
            0 <= w < 64 && crate::board::is_king_of(#[trigger] s2.squares[w], a) implies w == k2 by {
            if w != k2 {
                assert(s2.squares[w].code == a.color_bits_spec() + KING);
            }
        }
    }
    assert(s2.has_king(a));
}

/// What holds of every generated move: both squares on the board, the
/// origin held by the side to move, the target free of its pieces, a
/// promotion only as the rules demand, a two-file king move only from the
/// king's home square, and the mover's king left safe.
pub open spec fn spec_move_props(s: BoardState, m: Move) -> bool {
    &&& m.from < 64
    &&& m.to < 64
    &&& s.squares[m.from as int].has_color(s.active_color)
    &&& !s.squares[m.to as int].has_color(s.active_color)
    &&& spec_can_apply(s, m)
    &&& (m.promote matches Some(p) ==> 3 <= p.kind() <= 6)
    &&& ((s.squares[m.from as int].kind() == KING && (m.to as int - m.from as int == 2 || m.to as int
        - m.from as int == -2)) ==> m.from as int == (if s.active_color is White {
        4int
    } else {
        60
    }))
    &&& spec_keeps_king_safe(s, m)
}

/// Supporting facts about a generated move: an occupied target is a
/// threatened square (so a protected king is never captured), and a pawn
/// double push starts from the proper rank and crosses empty squares.
pub open spec fn spec_move_extras(s: BoardState, m: Move) -> bool {
    &&& (s.squares[m.to as int].code != 0 ==> spec_threatens(
        s,
        s.active_color,
        m.from as int,
        m.to as int,
    ))
    &&& (s.squares[m.from as int].kind() == PAWN && m.to as int - m.from as int == spec_forward(
        s.active_color,
    ) * 16 ==> (s.squares[m.from as int + spec_forward(s.active_color) * 8].code == 0
        && s.squares[m.to as int].code == 0 && (s.active_color is White ==> rank_of(m.from as int)
        == 1) && (s.active_color is Black ==> rank_of(m.from as int) == 6)))
    &&& (s.squares[m.from as int].kind() == KING && m.to as int - m.from as int == 2 ==> (
    s.castle_rights.intersects(spec_castle_right(s.active_color, Direction::East))
        && s.squares[m.from as int + 1].code == 0))
    &&& (s.squares[m.from as int].kind() == KING && m.to as int - m.from as int == -2 ==> (
    s.castle_rights.intersects(spec_castle_right(s.active_color, Direction::West))
        && s.squares[m.from as int - 1].code == 0))
}

proof fn lemma_emit_member(s: BoardState, m0: Move, m: Move)
    requires
        emit(s, m0).contains(m),
    ensures
        m == m0,
        spec_keeps_king_safe(s, m0),
{
}

proof fn lemma_ray_member(s: BoardState, origin: int, d: Direction, n: int, k: int, m: Move)
    requires
        s.wf_squares(),
        0 <= origin < 64,
        k == ste(origin, d),
        0 <= n <= k,
        ray_clear(s, origin, d, n + 1),
        spec_sliding_ray(s, origin, d, n, k).contains(m),
    ensures
        m.from as int == origin,
        on_board(m.to as int),
        m.promote is None,
        !s.squares[m.to as int].has_color(s.active_color),
        spec_keeps_king_safe(s, m),
        m.to as int != origin,
        spec_ray_attacks(s, s.active_color, origin, d, m.to as int),
    decreases k - n,
{
    if n >= k {
        assert(false);
    } else {
        lemma_ray_step(origin, d, n + 1);
        let t = ray_sq(origin, d, n + 1);
        assert(ste(t, d) == ste(origin, d) - (n + 1));
        let mm = Move { from: origin as usize, to: t as usize, promote: None };
        if s.squares[t].has_color(s.active_color) {
            assert(false);
        } else if s.squares[t].has_color(s.active_color.spec_other()) {
            lemma_emit_member(s, mm, m);
            assert(spec_ray_attacks(s, s.active_color, origin, d, t));
        } else {
            if emit(s, mm).contains(m) {
                lemma_emit_member(s, mm, m);
                assert(spec_ray_attacks(s, s.active_color, origin, d, t));
            } else {
                assert(ray_clear(s, origin, d, n + 2)) by {
                    assert forall|j: int| 1 <= j < n + 2 implies sq_empty(
                        s,
                        #[trigger] ray_sq(origin, d, j),
                    ) by {
                        if j == n + 1 {
                            assert(sq_empty(s, t)) by {
                                if s.squares[t].code != 0 {
                                    lemma_wf_occupied(s.squares[t]);
                                }
                            }
                        }
                    }
                }
                lemma_ray_member(s, origin, d, n + 1, k, m);
            }
        }
    }
}

proof fn lemma_sliding_member(s: BoardState, at: int, m: Move)
    requires
        s.wf_squares(),
        0 <= at < 64,
        s.squares[at].kind() == BISHOP || s.squares[at].kind() == ROOK || s.squares[at].kind()
            == QUEEN,
        spec_sliding_moves(s, at).contains(m),
    ensures
        m.from as int == at,
        on_board(m.to as int),
        m.promote is None,
        !s.squares[m.to as int].has_color(s.active_color),
        spec_keeps_king_safe(s, m),
        m.to != m.from,
        spec_threatens(s, s.active_color, at, m.to as int),
{
    let kind = s.squares[at].kind();
    let r1 = spec_full_ray(s, at, Direction::North);
    let r2 = spec_full_ray(s, at, Direction::South);
    let r3 = spec_full_ray(s, at, Direction::West);
    let r4 = spec_full_ray(s, at, Direction::East);
    let r5 = spec_full_ray(s, at, Direction::NorthWest);
    let r6 = spec_full_ray(s, at, Direction::SouthEast);
    let r7 = spec_full_ray(s, at, Direction::NorthEast);
    let r8 = spec_full_ray(s, at, Direction::SouthWest);
    let rookish = kind == ROOK || kind == QUEEN;
    let bishopish = kind == BISHOP || kind == QUEEN;
    let d: Direction = if rookish && r1.contains(m) {
        Direction::North
    } else if rookish && r2.contains(m) {
        Direction::South
    } else if rookish && r3.contains(m) {
        Direction::West
    } else if rookish && r4.contains(m) {
        Direction::East
    } else if bishopish && r5.contains(m) {
        Direction::NorthWest
    } else if bishopish && r6.contains(m) {
        Direction::SouthEast
    } else if bishopish && r7.contains(m) {
        Direction::NorthEast
    } else {
        Direction::SouthWest
    };
    if d is SouthWest {
        assert(bishopish && r8.contains(m));
    }
    assert(kind_has_dir(kind, d));
    assert(spec_full_ray(s, at, d).contains(m));
    lemma_ray_member(s, at, d, 0, ste(at, d), m);
    assert(spec_ray_attacks(s, s.active_color, at, d, m.to as int));
    assert(spec_sliding_threat(s, s.active_color, at, m.to as int));
}

proof fn lemma_knight_member(s: BoardState, at: int, m: Move)
    requires
        s.wf_squares(),
        0 <= at < 64,
        s.squares[at].kind() == KNIGHT,
        spec_knight_moves(s, at).contains(m),
    ensures
        m.from as int == at,
        on_board(m.to as int),
        m.promote is None,
        !s.squares[m.to as int].has_color(s.active_color),
        spec_keeps_king_safe(s, m),
        m.to != m.from,
        spec_threatens(s, s.active_color, at, m.to as int),
{
    assert(at == 8 * rank_of(at) + file_of(at));
    assert forall|dx: int, dy: int|
        knight_shape(dx, dy) && #[trigger] spec_knight_one(
            s,
            at,
            dx,
            dy,
        ).contains(m) implies m.from as int == at && on_board(m.to as int) && m.promote is None
        && !s.squares[m.to as int].has_color(s.active_color) && spec_keeps_king_safe(s, m) && m.to
        != m.from && spec_threatens(s, s.active_color, at, m.to as int) by {
        let t = at + dy * 8 + dx;
        lemma_rank_file(t, rank_of(at) + dy, file_of(at) + dx);
        lemma_emit_member(s, Move { from: at as usize, to: t as usize, promote: None }, m);
        assert(knight_jump(at, dx, dy, t));
        assert(spec_knight_threat(s, s.active_color, at, t));
    }
    assert(spec_knight_one(s, at, -2, 1).contains(m) || spec_knight_one(s, at, -1, 2).contains(m)
        || spec_knight_one(s, at, 1, 2).contains(m) || spec_knight_one(s, at, 2, 1).contains(m)
        || spec_knight_one(s, at, 2, -1).contains(m) || spec_knight_one(s, at, 1, -2).contains(m)
        || spec_knight_one(s, at, -1, -2).contains(m) || spec_knight_one(s, at, -2, -1).contains(m));
}

proof fn lemma_pawn_emit_member(s: BoardState, m0: Move, m: Move)
    requires
        spec_pawn_emit(s, m0).contains(m),
        m0.promote is None,
    ensures
        m.from == m0.from,
        m.to == m0.to,
        spec_keeps_king_safe(s, m),
        (rank_of(m0.to as int) == 0 || rank_of(m0.to as int) == 7) ==> (m.promote matches Some(p)
            && 3 <= p.kind() <= 6),
        !(rank_of(m0.to as int) == 0 || rank_of(m0.to as int) == 7) ==> m.promote is None,
{
    if rank_of(m0.to as int) == 0 || rank_of(m0.to as int) == 7 {
        if emit(s, m0.spec_with_promote(KNIGHT)).contains(m) {
            lemma_emit_member(s, m0.spec_with_promote(KNIGHT), m);
        } else if emit(s, m0.spec_with_promote(BISHOP)).contains(m) {
            lemma_emit_member(s, m0.spec_with_promote(BISHOP), m);
        } else if emit(s, m0.spec_with_promote(ROOK)).contains(m) {
            lemma_emit_member(s, m0.spec_with_promote(ROOK), m);
        } else {
            assert(emit(s, m0.spec_with_promote(QUEEN)).contains(m));
            lemma_emit_member(s, m0.spec_with_promote(QUEEN), m);
        }
    } else {
        lemma_emit_member(s, m0, m);
    }
}

proof fn lemma_pawn_member(s: BoardState, at: int, m: Move)
    requires
        s.wf(),
        0 <= at < 64,
        s.squares[at].kind() == PAWN,
        spec_pawn_moves(s, at).contains(m),
    ensures
        m.from as int == at,
        on_board(m.to as int),
        !s.squares[m.to as int].has_color(s.active_color),
        spec_keeps_king_safe(s, m),
        spec_can_apply(s, m),
        (m.promote matches Some(p) ==> 3 <= p.kind() <= 6),
        m.to != m.from,
        s.squares[m.to as int].code != 0 ==> spec_threatens(s, s.active_color, at, m.to as int),
        m.to as int - m.from as int == spec_forward(s.active_color) * 16 ==> (s.squares[at
            + spec_forward(s.active_color) * 8].code == 0 && s.squares[m.to as int].code == 0 && (
        s.active_color is White ==> rank_of(at) == 1) && (s.active_color is Black ==> rank_of(at)
            == 6)),
{
    let a = s.active_color;
    let fv = spec_forward(a);
    assert(0 <= rank_of(at) + fv < 8);
    assert(at == 8 * rank_of(at) + file_of(at));
    let fwd = at + fv * 8;
    lemma_rank_file(fwd, rank_of(at) + fv, file_of(at));
    let west = Move { from: at as usize, to: (fwd - 1) as usize, promote: None };
    let east = Move { from: at as usize, to: (fwd + 1) as usize, promote: None };
    let push = Move { from: at as usize, to: fwd as usize, promote: None };
    let dbl = Move { from: at as usize, to: (at + fv * 16) as usize, promote: None };
    if spec_pawn_emit(s, west).contains(m) && file_of(at) >= 1 && (s.squares[fwd - 1].has_color(
        a.spec_other(),
    ) || s.en_passant == Some(fwd - 1)) {
        lemma_rank_file(fwd - 1, rank_of(at) + fv, file_of(at) - 1);
        lemma_pawn_emit_member(s, west, m);
        if s.squares[fwd - 1].has_color(a.spec_other()) {
            lemma_wf_occupied(s.squares[fwd - 1]);
            assert(spec_pawn_threat(s, a, at, fwd - 1));
        } else {
            assert(s.ep_ok());
            assert(s.squares[fwd - 1].code == 0);
        }
    } else if spec_pawn_emit(s, east).contains(m) && file_of(at) <= 6 && (s.squares[fwd
        + 1].has_color(a.spec_other()) || s.en_passant == Some(fwd + 1)) {
        lemma_rank_file(fwd + 1, rank_of(at) + fv, file_of(at) + 1);
        lemma_pawn_emit_member(s, east, m);
        if s.squares[fwd + 1].has_color(a.spec_other()) {
            lemma_wf_occupied(s.squares[fwd + 1]);
            assert(spec_pawn_threat(s, a, at, fwd + 1));
        } else {
            assert(s.ep_ok());
            assert(s.squares[fwd + 1].code == 0);
        }
    } else if spec_pawn_emit(s, push).contains(m) && s.squares[fwd].code == 0 {
        lemma_pawn_emit_member(s, push, m);
    } else {
        assert(spec_pawn_emit(s, dbl).contains(m) && s.squares[fwd].code == 0 && ((a is White
            && rank_of(at) == 1) || (a is Black && rank_of(at) == 6)) && s.squares[at
            + fv * 16].code == 0);
        lemma_rank_file(at + fv * 16, rank_of(at) + 2 * fv, file_of(at));
        lemma_pawn_emit_member(s, dbl, m);
    }
}

proof fn lemma_king_member(s: BoardState, at: int, m: Move)
    requires
        s.wf(),
        0 <= at < 64,
        s.squares[at].kind() == KING,
        s.squares[at].has_color(s.active_color),
        spec_king_moves(s, at).contains(m),
    ensures
        m.from as int == at,
        on_board(m.to as int),
        m.promote is None,
        !s.squares[m.to as int].has_color(s.active_color),
        spec_keeps_king_safe(s, m),
        (m.to as int - m.from as int == 2 || m.to as int - m.from as int == -2) ==> m.from as int
            == (if s.active_color is White {
            4int
        } else {
            60
        }),
        m.to != m.from,
        s.squares[m.to as int].code != 0 ==> spec_threatens(s, s.active_color, at, m.to as int),
        m.to as int - m.from as int == 2 ==> (s.castle_rights.intersects(
            spec_castle_right(s.active_color, Direction::East),
        ) && s.squares[m.from as int + 1].code == 0),
        m.to as int - m.from as int == -2 ==> (s.castle_rights.intersects(
            spec_castle_right(s.active_color, Direction::West),
        ) && s.squares[m.from as int - 1].code == 0),
{
    let a = s.active_color;
    assert forall|d: Direction| #[trigger] spec_king_step(s, at, d).contains(m) implies m.from as int
        == at && on_board(m.to as int) && m.promote is None && !s.squares[m.to as int].has_color(a)
        && spec_keeps_king_safe(s, m) && (m.to as int - m.from as int != 2 && m.to as int
        - m.from as int != -2) && m.to != m.from && spec_threatens(s, a, at, m.to as int) by {
        lemma_ray_step(at, d, 1);
        let t = ray_sq(at, d, 1);
        lemma_emit_member(s, Move { from: at as usize, to: t as usize, promote: None }, m);
        assert(spec_king_threat(s, a, at, t));
    }
    assert forall|d: Direction| (d is West || d is East) && #[trigger] spec_castle(
        s,
        at,
        d,
    ).contains(m) implies m.from as int == at && on_board(m.to as int) && m.promote is None
        && !s.squares[m.to as int].has_color(a) && spec_keeps_king_safe(s, m) && m.from as int == (
    if a is White {
        4int
    } else {
        60
    }) && m.to != m.from && (m.to as int - m.from as int == 2 ==> (s.castle_rights.intersects(
        spec_castle_right(a, Direction::East),
    ) && s.squares[m.from as int + 1].code == 0)) && (m.to as int - m.from as int == -2 ==> (
    s.castle_rights.intersects(spec_castle_right(a, Direction::West)) && s.squares[m.from as int
        - 1].code == 0)) by {
        let home: int = if a is White {
            4
        } else {
            60
        };
        let p = s.squares[at];
        assert(p.wf());
        crate::pieces::lemma_wf_decompose(p);
        lemma_has_color_iff(p, a);
        assert(crate::board::is_king_of(p, a));
        assert(s.rights_ok());
        assert(s.castle_rights.intersects(spec_castle_right(a, d)));
        assert(crate::board::is_king_of(s.squares[home], a));
        assert(at == home);
        let dest = at + 2 * d.offset_spec();
        lemma_emit_member(s, Move { from: at as usize, to: dest as usize, promote: None }, m);
        assert(s.squares[dest].code == 0);
    }
    assert(spec_king_step(s, at, Direction::North).contains(m) || spec_king_step(
        s,
        at,
        Direction::South,
    ).contains(m) || spec_king_step(s, at, Direction::West).contains(m) || spec_king_step(
        s,
        at,
        Direction::East,
    ).contains(m) || spec_king_step(s, at, Direction::NorthWest).contains(m) || spec_king_step(
        s,
        at,
        Direction::SouthEast,
    ).contains(m) || spec_king_step(s, at, Direction::NorthEast).contains(m) || spec_king_step(
        s,
        at,
        Direction::SouthWest,
    ).contains(m) || spec_castle(s, at, Direction::West).contains(m) || spec_castle(
        s,
        at,
        Direction::East,
    ).contains(m));
}

/// Every move in the piece's generated list satisfies the generated-move
/// properties, and originates from that square.
pub proof fn lemma_moves_for_member(s: BoardState, idx: int, m: Move)
    requires
        s.wf(),
        0 <= idx < 64,
        spec_moves_for(s, idx).contains(m),
    ensures
        spec_move_props(s, m),
        m.from as int == idx,
        spec_move_extras(s, m),
{
    let p = s.squares[idx];
    assert(p.has_color(s.active_color));
    let k = p.kind();
    if k == BISHOP || k == ROOK || k == QUEEN {
        lemma_sliding_member(s, idx, m);
    } else if k == KNIGHT {
        lemma_knight_member(s, idx, m);
    } else if k == PAWN {
        lemma_pawn_member(s, idx, m);
    } else {
        assert(k == KING);
        lemma_king_member(s, idx, m);
    }
}

/// Every move in the legal-move list satisfies the generated-move
/// properties and is a member of its origin square's own list.
pub proof fn lemma_legal_upto_member(s: BoardState, n: int, m: Move)
    requires
        s.wf(),
        0 <= n <= 64,
        spec_legal_upto(s, n).contains(m),
    ensures
        spec_move_props(s, m),
        spec_move_extras(s, m),
        m.from < n,
        spec_moves_for(s, m.from as int).contains(m),
    decreases n,
{
    if n <= 0 {
        assert(false);
    } else {
        if spec_legal_upto(s, n - 1).contains(m) {
            lemma_legal_upto_member(s, n - 1, m);
        } else {
            assert(spec_moves_for(s, n - 1).contains(m));
            lemma_moves_for_member(s, n - 1, m);
        }
    }
}

/// A generated move never lands on, nor starts from, the opponent king's
/// square: an occupied target is a threatened square, and the opponent is
/// not in check.
proof fn lemma_apply_no_king_capture(s: BoardState, m: Move)
    requires
        s.wf(),
        spec_move_props(s, m),
        spec_move_extras(s, m),
        !spec_in_check(s, s.active_color.spec_other()),
    ensures
        m.to as int != s.king_sq(s.active_color.spec_other()),
        m.from as int != s.king_sq(s.active_color.spec_other()),
        0 <= s.king_sq(s.active_color.spec_other()) < 64,
        crate::board::is_king_of(s.squares[s.king_sq(s.active_color.spec_other())], s.active_color.spec_other()),
{
    let a = s.active_color;
    let opp = a.spec_other();
    let ko = s.king_sq(opp);
    assert(s.has_king(opp));
    assert(0 <= ko < 64 && crate::board::is_king_of(s.squares[ko], opp));
    if m.to as int == ko {
        assert(s.squares[ko].code != 0);
        assert(spec_threatens(s, a, m.from as int, ko));
        assert(spec_attacked(s, a, ko)) by {
            assert((m.from as int) < 64 && s.squares[m.from as int].has_color(a)
                && spec_threatens(s, a, m.from as int, ko));
        }
        assert(spec_in_check(s, opp));
    }
    if m.from as int == ko {
        crate::pieces::lemma_wf_decompose(s.squares[ko]);
        lemma_has_color_iff(s.squares[ko], a);
    }
}

/// The opponent keeps exactly one king through the move.
#[verifier::rlimit(100)]
#[verifier::spinoff_prover]
proof fn lemma_apply_opp_king(s: BoardState, m: Move)
    requires
        s.wf(),
        spec_move_props(s, m),
        spec_move_extras(s, m),
        !spec_in_check(s, s.active_color.spec_other()),
    ensures
        spec_apply(s, m).has_king(s.active_color.spec_other()),
        spec_apply(s, m).king_unique(s.active_color.spec_other()),
{
    let a = s.active_color;
    let opp = a.spec_other();
    let s2 = spec_apply(s, m);
    let ko = s.king_sq(opp);
    lemma_apply_no_king_capture(s, m);
    let mover = s.squares[m.from as int];
    assert(mover.wf());
    lemma_wf_occupied(mover);
    lemma_has_color_iff(mover, a);
    crate::pieces::lemma_wf_decompose(mover);
    let fv = spec_forward(a);
    let behind = m.to as int - fv * 8;
    let ep_fired = mover.kind() == PAWN && s.en_passant == Some(m.to as int);
    if ep_fired {
        assert(s.ep_ok());
        assert(s.squares[behind].code == opp.color_bits_spec() + PAWN);
        assert(behind != ko);
    }
    let dist = m.to as int - m.from as int;
    if mover.kind() == KING && (dist == 2 || dist == -2) {
        assert(s.rights_ok());
        let (rf, rt) = crate::geometry::spec_rook_castle_pos(a, dist > 0);
        assert(s.squares[rf as int].code == a.color_bits_spec() + ROOK);
        assert(s.squares[rt as int].code == 0);
        assert(rf as int != ko && rt as int != ko);
    }
    assert(crate::board::is_king_of(s2.squares[ko], opp));
    assert forall|w: int|
        0 <= w < 64 && crate::board::is_king_of(#[trigger] s2.squares[w], opp) implies w == ko by {
        if w != ko {
            assert(s.squares[w].wf());
        }
    }
    assert(s2.has_king(opp));
}

/// The move leaves a consistent en-passant record.
#[verifier::rlimit(100)]
#[verifier::spinoff_prover]
proof fn lemma_apply_ep_ok(s: BoardState, m: Move)
    requires
        s.wf(),
        spec_move_props(s, m),
        spec_move_extras(s, m),
    ensures
        spec_apply(s, m).ep_ok(),
{
    let a = s.active_color;
    let s2 = spec_apply(s, m);
    let mover = s.squares[m.from as int];
    assert(mover.wf());
    lemma_wf_occupied(mover);
    lemma_has_color_iff(mover, a);
    crate::pieces::lemma_wf_decompose(mover);
    let fv = spec_forward(a);
    let dist = m.to as int - m.from as int;
    let ep_fired = mover.kind() == PAWN && s.en_passant == Some(m.to as int);
    if mover.kind() == PAWN && (dist == 16 || dist == -16) {
        assert(dist == fv * 16);
        let t2 = m.to as int - fv * 8;
        assert(t2 == m.from as int + fv * 8);
        assert(s.squares[t2].code == 0);
        lemma_rank_file(t2, rank_of(m.from as int) + fv, file_of(m.from as int));
        lemma_rank_file(m.to as int, rank_of(m.from as int) + 2 * fv, file_of(m.from as int));
        assert(!ep_fired) by {
            if ep_fired {
                assert(s.ep_ok());
                assert(rank_of(m.to as int) == if a is White { 5int } else { 2int });
            }
        }
        assert(s2.squares[t2].code == 0);
        assert(s2.squares[m.to as int].code == a.color_bits_spec() + PAWN);
        assert(s2.ep_ok());
    }
}

/// A castling right surviving the move still has its king and rook at
/// home: any move that could disturb them revokes the right.
#[verifier::rlimit(100)]
#[verifier::spinoff_prover]
proof fn lemma_apply_rights_ok(s: BoardState, m: Move)
    requires
        s.wf(),
        spec_move_props(s, m),
        spec_move_extras(s, m),
    ensures
        spec_apply(s, m).rights_ok(),
{
    let a = s.active_color;
    let s2 = spec_apply(s, m);
    let mover = s.squares[m.from as int];
    assert(mover.wf());
    lemma_wf_occupied(mover);
    lemma_has_color_iff(mover, a);
    crate::pieces::lemma_wf_decompose(mover);
    let fv = spec_forward(a);
    let behind = m.to as int - fv * 8;
    let ep_fired = mover.kind() == PAWN && s.en_passant == Some(m.to as int);
    if ep_fired {
        assert(s.ep_ok());
        lemma_rank_file(behind, rank_of(m.to as int) - fv, file_of(m.to as int));
        assert(rank_of(behind) == 2 || rank_of(behind) == 3 || rank_of(behind) == 4 || rank_of(
            behind,
        ) == 5);
    }
    if s2.castle_rights.white_king || s2.castle_rights.white_queen {
        assert(s.castle_rights.white_king || s.castle_rights.white_queen);
        assert(m.from as int != 4 && m.to as int != 4);
    }
    if s2.castle_rights.white_king {
        assert(m.from as int != 7 && m.to as int != 7);
    }
    if s2.castle_rights.white_queen {
        assert(m.from as int != 0 && m.to as int != 0);
    }
    if s2.castle_rights.black_king || s2.castle_rights.black_queen {
        assert(s.castle_rights.black_king || s.castle_rights.black_queen);
        assert(m.from as int != 60 && m.to as int != 60);
    }
    if s2.castle_rights.black_king {
        assert(m.from as int != 63 && m.to as int != 63);
    }
    if s2.castle_rights.black_queen {
        assert(m.from as int != 56 && m.to as int != 56);
    }
}

/// Applying a legal move of a reachable position yields a reachable
/// position: the invariants hold again, and the mover's king stays safe,
/// so the side that has just moved is not in check.
pub proof fn lemma_apply_preserves_wf(s: BoardState, m: Move)
    requires
        s.wf(),
        !spec_in_check(s, s.active_color.spec_other()),
        spec_legal_moves(s).contains(m),
    ensures
        spec_apply(s, m).wf(),
        !spec_in_check(spec_apply(s, m), spec_apply(s, m).active_color.spec_other()),
        spec_apply(s, m).active_color == s.active_color.spec_other(),
{
    reveal(spec_keeps_king_safe);
    lemma_legal_member(s, m);
    let a = s.active_color;
    let s2 = spec_apply(s, m);
    lemma_apply_mover_king(s, m);
    lemma_apply_opp_king(s, m);
    lemma_apply_ep_ok(s, m);
    lemma_apply_rights_ok(s, m);
    if a is White {
        assert(s2.has_king(Player::White) && s2.king_unique(Player::White));
        assert(s2.has_king(Player::Black) && s2.king_unique(Player::Black));
    } else {
        assert(s2.has_king(Player::White) && s2.king_unique(Player::White));
        assert(s2.has_king(Player::Black) && s2.king_unique(Player::Black));
    }
    assert(!spec_in_check(s2, a)) by {
        assert(spec_keeps_king_safe(s, m));
        assert(s2.active_color.spec_other() == a);
    }
}

/// Every legal move satisfies the generated-move properties.
pub proof fn lemma_legal_member(s: BoardState, m: Move)
    requires
        s.wf(),
        spec_legal_moves(s).contains(m),
    ensures
        spec_move_props(s, m),
        spec_move_extras(s, m),
        spec_moves_for(s, m.from as int).contains(m),
{
    lemma_legal_upto_member(s, 64, m);
}

/// The rejection a requested move earns, if any: the checks run in the
/// order ownership, legality, promotion requirement.
pub open spec fn spec_move_error(s: BoardState, m: Move) -> Option<crate::moves::InvalidMoveErr> {
    if m.from >= 64 || !s.squares[m.from as int].has_color(s.active_color) {
        Some(crate::moves::InvalidMoveErr::NotYourPiece)
    } else if !spec_moves_for(s, m.from as int).contains(m) {
        Some(crate::moves::InvalidMoveErr::IllegalMove)
    } else if s.squares[m.from as int].kind() == PAWN && (rank_of(m.to as int) == 0 || rank_of(
        m.to as int,
    ) == 7) && m.promote is None {
        Some(crate::moves::InvalidMoveErr::NoPromotion)
    } else {
        None
    }
}

impl Board {
    /// Appends `umove` unless it would leave the mover's own king
    /// attacked: the move is applied to a scratch copy and the opponent's
    /// attack map is consulted at the king's square.
    fn add_move(&self, moves: &mut Vec<Move>, umove: Move)
        requires
            self@.wf(),
            spec_can_apply(self@, umove),
            self@.squares[umove.from as int].has_color(self@.active_color),
            !self@.squares[umove.to as int].has_color(self@.active_color),
            (umove.promote matches Some(p) ==> 3 <= p.kind() <= 6),
            (self@.squares[umove.from as int].kind() == KING && (umove.to as int - umove.from as int
                == 2 || umove.to as int - umove.from as int == -2)) ==> umove.from as int == (
            if self@.active_color is White {
                4int
            } else {
                60
            }),
        ensures
            final(moves)@ == old(moves)@ + emit(self@, umove),
    {
        proof {
            reveal(spec_keeps_king_safe);
            lemma_apply_mover_king(self@, umove);
        }
        let mover_color = self.active_color;
        let mut new_board = self.clone();
        new_board.make_move_unchecked(umove);
        let king_pos = new_board.find_king(mover_color);
        let attacks = new_board.generate_attacks(new_board.active_color());
        if attacks[king_pos] {
            proof {
                assert(!spec_keeps_king_safe(self@, umove));
                assert(old(moves)@ + emit(self@, umove) =~= old(moves)@);
            }
            return ;
        }
        moves.push(umove);
        proof {
            assert(spec_keeps_king_safe(self@, umove));
            assert(old(moves)@ + emit(self@, umove) =~= old(moves)@.push(umove));
        }
    }

    /// Emits the slider moves along one ray.
    fn move_ray(&self, moves: &mut Vec<Move>, start: usize, dir: Direction)
        requires
            self@.wf(),
            start < 64,
            self@.squares[start as int].has_color(self@.active_color),
            self@.squares[start as int].kind() == BISHOP || self@.squares[start as int].kind()
                == ROOK || self@.squares[start as int].kind() == QUEEN,
        ensures
            final(moves)@ == old(moves)@ + spec_full_ray(self@, start as int, dir),
    {
        let ghost s = self@;
        let ghost at = start as int;
        let ghost m0 = moves@;
        let n_max = squares_to_edge(start, dir);
        let off = dir.offset();
        let mut n: usize = 0;
        loop
            invariant_except_break
                n <= n_max,
                start < 64,
                s == self@,
                s.wf(),
                s.squares[at].has_color(s.active_color),
                s.squares[at].kind() == BISHOP || s.squares[at].kind() == ROOK || s.squares[at].kind()
                    == QUEEN,
                at == start as int,
                m0 == old(moves)@,
                n_max as int == ste(at, dir),
                n_max <= 7,
                off as int == dir.offset_spec(),
                -9 <= off <= 9,
                m0 + spec_full_ray(s, at, dir) == moves@ + spec_sliding_ray(s, at, dir, n as int, ste(at, dir)),
            ensures
                moves@ == old(moves)@ + spec_full_ray(self@, start as int, dir),
            decreases n_max - n,
        {
            if n >= n_max {
                proof {
                    assert(spec_sliding_ray(s, at, dir, n as int, ste(at, dir)) =~= Seq::<Move>::empty());
                    assert(moves@ + Seq::<Move>::empty() =~= moves@);
                }
                break;
            }
            proof {
                lemma_ray_step(at, dir, n as int + 1);
                assert(off as int * (n as int + 1) == (n as int + 1) * dir.offset_spec())
                    by (nonlinear_arith)
                    requires
                        off as int == dir.offset_spec(),
                ;
                assert(start as int + off as int * (n as int + 1) == ray_sq(at, dir, n as int + 1));
                assert(on_board(ray_sq(at, dir, n as int + 1)));
            }
            let target = (start as isize + off * (n as isize + 1)) as usize;
            proof {
                assert(target as int == ray_sq(at, dir, n as int + 1));
            }
            let target_piece = self.squares[target];
            let ghost m = Move { from: start, to: target, promote: None };
            let ghost rest = spec_sliding_ray(s, at, dir, n as int + 1, ste(at, dir));
            let ghost prev = moves@;

            if target_piece.is_color(self.active_color) {
                // blocked by a friendly piece
                proof {
                    assert(spec_sliding_ray(s, at, dir, n as int, ste(at, dir))
                        =~= Seq::<Move>::empty());
                    assert(moves@ + Seq::<Move>::empty() =~= moves@);
                }
                break;
            }

            self.add_move(moves, Move::from_idxs(start, target));

            if target_piece.is_color(self.active_color.other()) {
                // a capture: the ray is blocked beyond it
                proof {
                    assert(spec_sliding_ray(s, at, dir, n as int, ste(at, dir)) == emit(s, m));
                }
                break;
            }

            proof {
                assert(spec_sliding_ray(s, at, dir, n as int, ste(at, dir)) == emit(s, m) + rest);
                assert((prev + emit(s, m)) + rest =~= prev + (emit(s, m) + rest));
            }
            n += 1;
        }
    }

    #[verifier::rlimit(100)]
    #[verifier::spinoff_prover]
    fn generate_sliding_moves(&self, moves: &mut Vec<Move>, start: usize, piece: Piece)
        requires
            self@.wf(),
            start < 64,
            piece == self@.squares[start as int],
            piece.has_color(self@.active_color),
            piece.kind() == BISHOP || piece.kind() == ROOK || piece.kind() == QUEEN,
        ensures
            final(moves)@ == old(moves)@ + spec_sliding_moves(self@, start as int),
    {
        let ghost s = self@;
        let ghost at = start as int;
        let ghost m0 = moves@;
        let piece_type = piece.piece_type();
        if piece_type == ROOK || piece_type == QUEEN {
            self.move_ray(moves, start, Direction::North);
            self.move_ray(moves, start, Direction::South);
            self.move_ray(moves, start, Direction::West);
            self.move_ray(moves, start, Direction::East);
        }
        if piece_type == BISHOP || piece_type == QUEEN {
            self.move_ray(moves, start, Direction::NorthWest);
            self.move_ray(moves, start, Direction::SouthEast);
            self.move_ray(moves, start, Direction::NorthEast);
            self.move_ray(moves, start, Direction::SouthWest);
        }
        proof {
            let r1 = spec_full_ray(s, at, Direction::North);
            let r2 = spec_full_ray(s, at, Direction::South);
            let r3 = spec_full_ray(s, at, Direction::West);
            let r4 = spec_full_ray(s, at, Direction::East);
            let r5 = spec_full_ray(s, at, Direction::NorthWest);
            let r6 = spec_full_ray(s, at, Direction::SouthEast);
            let r7 = spec_full_ray(s, at, Direction::NorthEast);
            let r8 = spec_full_ray(s, at, Direction::SouthWest);
            let rook_part = if piece.kind() == ROOK || piece.kind() == QUEEN {
                ((r1 + r2) + r3) + r4
            } else {
                Seq::<Move>::empty()
            };
            let bishop_part = if piece.kind() == BISHOP || piece.kind() == QUEEN {
                ((r5 + r6) + r7) + r8
            } else {
                Seq::<Move>::empty()
            };
            if piece.kind() == ROOK || piece.kind() == QUEEN {
                lemma_add_assoc(m0, r1, r2);
                lemma_add_assoc(m0, r1 + r2, r3);
                lemma_add_assoc(m0, (r1 + r2) + r3, r4);
            }
            assert(moves@ == m0 + rook_part || (piece.kind() == QUEEN && moves@ == ((((m0
                + rook_part) + r5) + r6) + r7) + r8) || (piece.kind() == BISHOP && moves@ == ((((m0
                + r5) + r6) + r7) + r8)));
            if piece.kind() == BISHOP || piece.kind() == QUEEN {
                let base = m0 + rook_part;
                assert(m0 + rook_part == base);
                lemma_add_assoc(base, r5, r6);
                lemma_add_assoc(base, r5 + r6, r7);
                lemma_add_assoc(base, (r5 + r6) + r7, r8);
                assert(moves@ == base + bishop_part);
                lemma_add_assoc(m0, rook_part, bishop_part);
            } else {
                assert(bishop_part == Seq::<Move>::empty());
                assert(rook_part + bishop_part == rook_part);
            }
            assert(moves@ == m0 + spec_sliding_moves(s, at));
        }
    }

    /// Tries one knight offset: the jump must stay within the edge
    /// distances in both of its components.
    fn knight_try(&self, moves: &mut Vec<Move>, start: usize, dx: isize, dy: isize)
        requires
            self@.wf(),
            start < 64,
            crate::gen_attacks::knight_shape(dx as int, dy as int),
            self@.squares[start as int].has_color(self@.active_color),
            self@.squares[start as int].kind() == KNIGHT,
        ensures
            final(moves)@ == old(moves)@ + spec_knight_one(self@, start as int, dx as int, dy as int),
    {
        let ghost s = self@;
        let ghost at = start as int;
        let ghost m0 = moves@;
        let x_dir = if dx > 0 {
            Direction::East
        } else {
            Direction::West
        };
        let y_dir = if dy > 0 {
            Direction::North
        } else {
            Direction::South
        };
        let adx: usize = if dx > 0 {
            dx as usize
        } else {
            (-dx) as usize
        };
        let ady: usize = if dy > 0 {
            dy as usize
        } else {
            (-dy) as usize
        };
        if squares_to_edge(start, x_dir) >= adx && squares_to_edge(start, y_dir) >= ady {
            let target = (start as isize + dy * 8 + dx) as usize;
            proof {
                lemma_rank_file(
                    at + dy as int * 8 + dx as int,
                    rank_of(at) + dy as int,
                    file_of(at) + dx as int,
                );
                assert(at == 8 * rank_of(at) + file_of(at));
                assert(target as int == at + dy as int * 8 + dx as int);
            }
            if !self.squares[target].is_color(self.active_color) {
                self.add_move(moves, Move::from_idxs(start, target));
            } else {
                proof {
                    assert(moves@ + spec_knight_one(s, at, dx as int, dy as int) =~= moves@);
                }
            }
        } else {
            proof {
                assert(moves@ + spec_knight_one(s, at, dx as int, dy as int) =~= moves@);
            }
        }
    }

    #[verifier::rlimit(100)]
    #[verifier::spinoff_prover]
    fn generate_knight_moves(&self, moves: &mut Vec<Move>, start: usize)
        requires
            self@.wf(),
            start < 64,
            self@.squares[start as int].has_color(self@.active_color),
            self@.squares[start as int].kind() == KNIGHT,
        ensures
            final(moves)@ == old(moves)@ + spec_knight_moves(self@, start as int),
    {
        let ghost s = self@;
        let ghost at = start as int;
        let ghost m0 = moves@;
        self.knight_try(moves, start, -2, 1);
        self.knight_try(moves, start, -1, 2);
        self.knight_try(moves, start, 1, 2);
        self.knight_try(moves, start, 2, 1);
        self.knight_try(moves, start, 2, -1);
        self.knight_try(moves, start, 1, -2);
        self.knight_try(moves, start, -1, -2);
        self.knight_try(moves, start, -2, -1);
        proof {
            let k1 = spec_knight_one(s, at, -2, 1);
            let k2 = spec_knight_one(s, at, -1, 2);
            let k3 = spec_knight_one(s, at, 1, 2);
            let k4 = spec_knight_one(s, at, 2, 1);
            let k5 = spec_knight_one(s, at, 2, -1);
            let k6 = spec_knight_one(s, at, 1, -2);
            let k7 = spec_knight_one(s, at, -1, -2);
            let k8 = spec_knight_one(s, at, -2, -1);
            lemma_add_assoc(m0, k1, k2);
            lemma_add_assoc(m0, k1 + k2, k3);
            lemma_add_assoc(m0, (k1 + k2) + k3, k4);
            lemma_add_assoc(m0, ((k1 + k2) + k3) + k4, k5);
            lemma_add_assoc(m0, (((k1 + k2) + k3) + k4) + k5, k6);
            lemma_add_assoc(m0, ((((k1 + k2) + k3) + k4) + k5) + k6, k7);
            lemma_add_assoc(m0, (((((k1 + k2) + k3) + k4) + k5) + k6) + k7, k8);
            assert(moves@ == m0 + spec_knight_moves(s, at));
        }
    }

    /// Appends a pawn move, expanding a landing on the farthest rank into
    /// the four promotion variants.
    fn add_pawn_move(&self, moves: &mut Vec<Move>, umove: Move)
        requires
            self@.wf(),
            umove.from < 64,
            umove.to < 64,
            umove.promote is None,
            self@.squares[umove.from as int].has_color(self@.active_color),
            self@.squares[umove.from as int].kind() == PAWN,
            !self@.squares[umove.to as int].has_color(self@.active_color),
            (umove.to as int - umove.from as int == 16 || umove.to as int - umove.from as int == -16)
                ==> umove.to as int - umove.from as int == spec_forward(self@.active_color) * 16,
        ensures
            final(moves)@ == old(moves)@ + spec_pawn_emit(self@, umove),
    {
        let ghost s = self@;
        let ghost m0 = moves@;
        let target_rank = umove.to / 8;
        if target_rank == 0 || target_rank == 7 {
            self.add_move(moves, umove.with_promote(Some(Piece { code: KNIGHT })));
            self.add_move(moves, umove.with_promote(Some(Piece { code: BISHOP })));
            self.add_move(moves, umove.with_promote(Some(Piece { code: ROOK })));
            self.add_move(moves, umove.with_promote(Some(Piece { code: QUEEN })));
            proof {
                let e1 = emit(s, umove.spec_with_promote(KNIGHT));
                let e2 = emit(s, umove.spec_with_promote(BISHOP));
                let e3 = emit(s, umove.spec_with_promote(ROOK));
                let e4 = emit(s, umove.spec_with_promote(QUEEN));
                lemma_add_assoc(m0, e1, e2);
                lemma_add_assoc(m0, e1 + e2, e3);
                lemma_add_assoc(m0, (e1 + e2) + e3, e4);
                assert(moves@ == m0 + spec_pawn_emit(s, umove));
            }
        } else {
            self.add_move(moves, umove);
        }
    }

    #[verifier::rlimit(100)]
    #[verifier::spinoff_prover]
    fn generate_pawn_moves(&self, moves: &mut Vec<Move>, start: usize)
        requires
            self@.wf(),
            start < 64,
            self@.squares[start as int].has_color(self@.active_color),
            self@.squares[start as int].kind() == PAWN,
        ensures
            final(moves)@ == old(moves)@ + spec_pawn_moves(self@, start as int),
    {
        let ghost s = self@;
        let ghost at = start as int;
        let ghost m0 = moves@;
        let ghost fv = spec_forward(s.active_color);
        if squares_to_edge(start, self.active_color.forward_dir()) < 1 {
            proof {
                assert(spec_pawn_moves(s, at) == Seq::<Move>::empty());
                assert(m0 + Seq::<Move>::empty() == m0);
            }
            return ;
        }
        let forward_target = (start as isize + self.active_color.forward_value() * 8) as usize;
        proof {
            lemma_rank_file(at + fv * 8, rank_of(at) + fv, file_of(at));
            assert(at == 8 * rank_of(at) + file_of(at));
            assert(forward_target as int == at + fv * 8);
        }

        let ghost west = if file_of(at) >= 1 && (s.squares[at + fv * 8 - 1].has_color(
            s.active_color.spec_other(),
        ) || s.en_passant == Some(at + fv * 8 - 1)) {
            spec_pawn_emit(s, Move { from: start, to: (at + fv * 8 - 1) as usize, promote: None })
        } else {
            Seq::<Move>::empty()
        };
        let ghost east = if file_of(at) <= 6 && (s.squares[at + fv * 8 + 1].has_color(
            s.active_color.spec_other(),
        ) || s.en_passant == Some(at + fv * 8 + 1)) {
            spec_pawn_emit(s, Move { from: start, to: (at + fv * 8 + 1) as usize, promote: None })
        } else {
            Seq::<Move>::empty()
        };

        // pawns capture diagonally, onto an enemy piece or the en-passant
        // target
        if squares_to_edge(start, Direction::West) >= 1 {
            let target = forward_target - 1;
            proof {
                lemma_rank_file(at + fv * 8 - 1, rank_of(at) + fv, file_of(at) - 1);
            }
            let ep_match = match self.en_passant {
                Some(e) => e == target,
                None => false,
            };
            if self.squares[target].is_color(self.active_color.other()) || ep_match {
                proof {
                    if !s.squares[target as int].has_color(s.active_color.spec_other()) {
                        assert(s.ep_ok());
                        assert(s.squares[target as int].code == 0);
                    } else {
                        lemma_wf_occupied(s.squares[target as int]);
                    }
                }
                self.add_pawn_move(moves, Move::from_idxs(start, target));
            }
        }
        proof {
            assert(start == at as usize);
            assert(moves@ == m0 + west);
        }
        if squares_to_edge(start, Direction::East) >= 1 {
            let target = forward_target + 1;
            proof {
                lemma_rank_file(at + fv * 8 + 1, rank_of(at) + fv, file_of(at) + 1);
            }
            let ep_match = match self.en_passant {
                Some(e) => e == target,
                None => false,
            };
            if self.squares[target].is_color(self.active_color.other()) || ep_match {
                proof {
                    if !s.squares[target as int].has_color(s.active_color.spec_other()) {
                        assert(s.ep_ok());
                        assert(s.squares[target as int].code == 0);
                    } else {
                        lemma_wf_occupied(s.squares[target as int]);
                    }
                }
                self.add_pawn_move(moves, Move::from_idxs(start, target));
            }
        }
        proof {
            assert(start == at as usize);
            assert(moves@ == (m0 + west) + east);
        }

        if !self.squares[forward_target].is_empty() {
            proof {
                lemma_add_assoc(m0, west, east);
                assert((west + east) + Seq::<Move>::empty() == west + east);
                assert(spec_pawn_moves(s, at) == west + east);
                assert(moves@ == m0 + spec_pawn_moves(s, at));
            }
            return ;
        }

        self.add_pawn_move(moves, Move::from_idxs(start, forward_target));

        // from the starting rank, a pawn may advance two squares when both
        // are empty
        let start_rank = start / 8;
        let double_ok = match self.active_color {
            Player::White => start_rank == 1,
            Player::Black => start_rank == 6,
        };
        if double_ok {
            let target = (start as isize + self.active_color.forward_value() * 16) as usize;
            proof {
                lemma_rank_file(at + fv * 16, rank_of(at) + 2 * fv, file_of(at));
                assert(target as int == at + fv * 16);
            }
            if self.squares[target].is_empty() {
                self.add_pawn_move(moves, Move::from_idxs(start, target));
            }
        }
        proof {
            assert(start == at as usize);
            let push1 = spec_pawn_emit(
                s,
                Move { from: start, to: (at + fv * 8) as usize, promote: None },
            );
            let dbl = if ((s.active_color is White && rank_of(at) == 1) || (s.active_color is Black
                && rank_of(at) == 6)) && s.squares[at + fv * 16].code == 0 {
                spec_pawn_emit(s, Move { from: start, to: (at + fv * 16) as usize, promote: None })
            } else {
                Seq::<Move>::empty()
            };
            let base = (m0 + west) + east;
            if dbl == Seq::<Move>::empty() {
                assert(moves@ == base + push1);
                assert(push1 + dbl == push1);
            } else {
                assert(moves@ == (base + push1) + dbl);
                lemma_add_assoc(base, push1, dbl);
            }
            assert(moves@ == base + (push1 + dbl));
            assert(spec_pawn_moves(s, at) == (west + east) + (push1 + dbl));
            lemma_add_assoc(m0, west, east);
            lemma_add_assoc(m0, west + east, push1 + dbl);
            assert(moves@ == m0 + spec_pawn_moves(s, at));
        }
    }

    fn king_step_try(&self, moves: &mut Vec<Move>, start: usize, dir: Direction)
        requires
            self@.wf(),
            start < 64,
            self@.squares[start as int].has_color(self@.active_color),
            self@.squares[start as int].kind() == KING,
        ensures
            final(moves)@ == old(moves)@ + spec_king_step(self@, start as int, dir),
    {
        let ghost s = self@;
        let ghost at = start as int;
        if squares_to_edge(start, dir) >= 1 {
            proof {
                lemma_ray_step(at, dir, 1);
            }
            let target = (start as isize + dir.offset()) as usize;
            proof {
                assert(target as int == ray_sq(at, dir, 1));
                assert(dir.offset_spec() != 2 && dir.offset_spec() != -2);
            }
            if !self.squares[target].is_color(self.active_color) {
                self.add_move(moves, Move::from_idxs(start, target));
            } else {
                proof {
                    assert(moves@ + spec_king_step(s, at, dir) =~= moves@);
                }
            }
        } else {
            proof {
                assert(moves@ + spec_king_step(s, at, dir) =~= moves@);
            }
        }
    }

    /// Emits the castle toward `dir` when the right is held, the king's
    /// path is free of enemy attack, and the squares between king and rook
    /// are empty.
    #[verifier::rlimit(100)]
    #[verifier::spinoff_prover]
    fn generate_king_castle_directions(&self, moves: &mut Vec<Move>, start: usize, dir: Direction)
        requires
            self@.wf(),
            start < 64,
            self@.squares[start as int].has_color(self@.active_color),
            self@.squares[start as int].kind() == KING,
            dir is West || dir is East,
        ensures
            final(moves)@ == old(moves)@ + spec_castle(self@, start as int, dir),
    {
        let ghost s = self@;
        let ghost at = start as int;
        let ghost m0 = moves@;
        let is_east = match dir {
            Direction::East => true,
            _ => false,
        };
        let needed_castle_right = match (self.active_color, is_east) {
            (Player::White, false) => CastleRights::white_queen_side(),
            (Player::White, true) => CastleRights::white_king_side(),
            (Player::Black, false) => CastleRights::black_queen_side(),
            (Player::Black, true) => CastleRights::black_king_side(),
        };
        proof {
            assert(needed_castle_right == spec_castle_right(s.active_color, dir));
        }
        if !self.castle_rights.has_right(needed_castle_right) {
            proof {
                assert(moves@ + spec_castle(s, at, dir) =~= moves@);
            }
            return ;
        }
        // the right is held, so by the position invariant the king still
        // stands on its home square
        proof {
            let home: int = if s.active_color is White {
                4
            } else {
                60
            };
            let p = s.squares[at];
            assert(p.wf());
            assert(p.code != 0);
            lemma_has_color_iff(p, s.active_color);
            crate::pieces::lemma_wf_decompose(p);
            assert(p.code as int == s.active_color.color_bits_spec() + KING);
            assert(crate::board::is_king_of(p, s.active_color));
            assert(s.rights_ok());
            assert(crate::board::is_king_of(s.squares[home], s.active_color));
            assert(at == home);
        }

        let attacked_squares = self.generate_attacks(self.active_color.other());
        let off = dir.offset();
        proof {
            assert(off == 1 || off == -1);
        }
        if attacked_squares[start] {
            proof {
                assert(moves@ + spec_castle(s, at, dir) =~= moves@);
            }
            return ;
        }
        let path1 = (start as isize + off) as usize;
        let path2 = (start as isize + 2 * off) as usize;
        if attacked_squares[path1] || attacked_squares[path2] {
            proof {
                assert(moves@ + spec_castle(s, at, dir) =~= moves@);
            }
            return ;
        }
        // every square strictly between king and rook must be empty
        let between_empty = if is_east {
            self.squares[start + 1].is_empty() && self.squares[start + 2].is_empty()
        } else {
            self.squares[start - 1].is_empty() && self.squares[start - 2].is_empty()
                && self.squares[start - 3].is_empty()
        };
        if !between_empty {
            proof {
                assert(moves@ + spec_castle(s, at, dir) =~= moves@);
            }
            return ;
        }
        let target = path2;
        if !self.squares[target].is_empty() {
            proof {
                assert(moves@ + spec_castle(s, at, dir) =~= moves@);
            }
            return ;
        }
        self.add_move(moves, Move::from_idxs(start, target));
        proof {
            assert(moves@ =~= m0 + spec_castle(s, at, dir));
        }
    }

    #[verifier::rlimit(100)]
    #[verifier::spinoff_prover]
    fn generate_king_moves(&self, moves: &mut Vec<Move>, start: usize)
        requires
            self@.wf(),
            start < 64,
            self@.squares[start as int].has_color(self@.active_color),
            self@.squares[start as int].kind() == KING,
        ensures
            final(moves)@ == old(moves)@ + spec_king_moves(self@, start as int),
    {
        let ghost s = self@;
        let ghost at = start as int;
        let ghost m0 = moves@;
        self.king_step_try(moves, start, Direction::North);
        self.king_step_try(moves, start, Direction::South);
        self.king_step_try(moves, start, Direction::West);
        self.king_step_try(moves, start, Direction::East);
        self.king_step_try(moves, start, Direction::NorthWest);
        self.king_step_try(moves, start, Direction::SouthEast);
        self.king_step_try(moves, start, Direction::NorthEast);
        self.king_step_try(moves, start, Direction::SouthWest);
        self.generate_king_castle_directions(moves, start, Direction::West);
        self.generate_king_castle_directions(moves, start, Direction::East);
        proof {
            let k1 = spec_king_step(s, at, Direction::North);
            let k2 = spec_king_step(s, at, Direction::South);
            let k3 = spec_king_step(s, at, Direction::West);
            let k4 = spec_king_step(s, at, Direction::East);
            let k5 = spec_king_step(s, at, Direction::NorthWest);
            let k6 = spec_king_step(s, at, Direction::SouthEast);
            let k7 = spec_king_step(s, at, Direction::NorthEast);
            let k8 = spec_king_step(s, at, Direction::SouthWest);
            let c1 = spec_castle(s, at, Direction::West);
            let c2 = spec_castle(s, at, Direction::East);
            lemma_add_assoc(m0, k1, k2);
            lemma_add_assoc(m0, k1 + k2, k3);
            lemma_add_assoc(m0, (k1 + k2) + k3, k4);
            lemma_add_assoc(m0, ((k1 + k2) + k3) + k4, k5);
            lemma_add_assoc(m0, (((k1 + k2) + k3) + k4) + k5, k6);
            lemma_add_assoc(m0, ((((k1 + k2) + k3) + k4) + k5) + k6, k7);
            lemma_add_assoc(m0, (((((k1 + k2) + k3) + k4) + k5) + k6) + k7, k8);
            lemma_add_assoc(m0, ((((((k1 + k2) + k3) + k4) + k5) + k6) + k7) + k8, c1);
            lemma_add_assoc(m0, (((((((k1 + k2) + k3) + k4) + k5) + k6) + k7) + k8) + c1, c2);
            assert(moves@ == m0 + spec_king_moves(s, at));
        }
    }

    /// Appends the legal moves of the piece on `idx`: nothing unless the
    /// square holds a piece of the side to move.
    pub fn get_moves_for(&self, moves: &mut Vec<Move>, idx: usize)
        requires
            self@.wf(),
            idx < 64,
        ensures
            final(moves)@ == old(moves)@ + spec_moves_for(self@, idx as int),
    {
        let piece = self.piece_at_idx(idx);
        if !piece.is_color(self.active_color) {
            proof {
                assert(moves@ + spec_moves_for(self@, idx as int) =~= moves@);
            }
            return ;
        }
        let piece_type = piece.piece_type();
        if piece.is_sliding() {
            self.generate_sliding_moves(moves, idx, piece);
        } else if piece_type == KNIGHT {
            self.generate_knight_moves(moves, idx);
        } else if piece_type == PAWN {
            self.generate_pawn_moves(moves, idx);
        } else if piece_type == KING {
            self.generate_king_moves(moves, idx);
        } else {
            proof {
                assert(moves@ + spec_moves_for(self@, idx as int) =~= moves@);
            }
        }
    }

    /// Validates and applies a move. Rejections leave the position
    /// untouched: `NotYourPiece` when the origin square is off the board,
    /// empty, or an opponent piece; `IllegalMove` when the move is not
    /// among the origin square's legal moves; `NoPromotion` when a pawn
    /// reaches the final rank without a promotion choice. On success the
    /// position becomes the applied transition.
    pub fn try_move(&mut self, umove: Move) -> (r: Result<(), crate::moves::InvalidMoveErr>)
        requires
            old(self)@.wf(),
        ensures
            match spec_move_error(old(self)@, umove) {
                Some(e) => r == Err::<(), crate::moves::InvalidMoveErr>(e) && final(self)@ == old(
                    self,
                )@,
                None => r == Ok::<(), crate::moves::InvalidMoveErr>(()) && final(self)@ == spec_apply(
                    old(self)@,
                    umove,
                ),
            },
    {
        if umove.from >= 64 {
            return Err(crate::moves::InvalidMoveErr::NotYourPiece);
        }
        // the mover must own the piece it moves
        if !self.squares[umove.from].is_color(self.active_color) {
            return Err(crate::moves::InvalidMoveErr::NotYourPiece);
        }
        let mut moves: Vec<Move> = Vec::new();
        self.get_moves_for(&mut moves, umove.from);
        proof {
            assert(moves@ =~= spec_moves_for(self@, umove.from as int));
        }
        let mut found = false;
        let mut i: usize = 0;
        while i < moves.len()
            invariant
                i <= moves.len(),
                found == exists|j: int| 0 <= j < i && moves@[j] == umove,
            decreases moves.len() - i,
        {
            if moves[i] == umove {
                found = true;
                proof {
                    assert(moves@[i as int] == umove);
                }
            }
            i += 1;
        }
        if !found {
            return Err(crate::moves::InvalidMoveErr::IllegalMove);
        }
        // validate the promotion requirement before touching any field
        let mover = self.squares[umove.from];
        let to_rank = umove.to / 8;
        if mover.piece_type() == PAWN && (to_rank == 0 || to_rank == 7) && umove.promote.is_none() {
            proof {
                lemma_moves_for_member(self@, umove.from as int, umove);
            }
            return Err(crate::moves::InvalidMoveErr::NoPromotion);
        }
        proof {
            lemma_moves_for_member(self@, umove.from as int, umove);
        }
        self.make_move_unchecked(umove);
        Ok(())
    }

    /// All legal moves of the side to move, gathered square by square in
    /// index order.
    pub fn generate_moves(&self) -> (r: Vec<Move>)
        requires
            self@.wf(),
        ensures
            r@ == spec_legal_moves(self@),
    {
        let mut moves: Vec<Move> = Vec::new();
        let mut idx: usize = 0;
        while idx < 64
            invariant
                self@.wf(),
                idx <= 64,
                moves@ == spec_legal_upto(self@, idx as int),
            decreases 64 - idx,
        {
            if self.squares[idx].is_color(self.active_color) {
                self.get_moves_for(&mut moves, idx);
            } else {
                proof {
                    assert(spec_moves_for(self@, idx as int) =~= Seq::<Move>::empty());
                    assert(moves@ + spec_moves_for(self@, idx as int) =~= moves@);
                }
            }
            idx += 1;
        }
        moves
    }
}

} // verus!

//! General laws of the engine, stated and proved once over the
//! mathematical model: what a move does to the en-passant record and the
//! castling rights, when a castle can be generated at all, and how the
//! search values terminal positions and single-ply searches.

use vstd::prelude::*;

use crate::ai::spec_search;
use crate::ai::spec_search_loop;
use crate::ai::ScoreFn;
use crate::ai::SCORE_INF;
use crate::board::spec_apply;
use crate::board::spec_forward;
use crate::board::BoardState;
use crate::gen_attacks::spec_attacked;
use crate::gen_attacks::spec_in_check;
use crate::gen_moves::emit;
use crate::gen_moves::lemma_legal_member;
use crate::gen_moves::spec_castle;
use crate::gen_moves::spec_castle_right;
use crate::gen_moves::spec_king_moves;
use crate::gen_moves::spec_king_step;
use crate::gen_moves::spec_legal_moves;
use crate::gen_moves::spec_moves_for;
use crate::geometry::Direction;
use crate::moves::Move;
use crate::pieces::KING;
use crate::pieces::PAWN;

verus! {

/// Applying a move sets the en-passant target exactly when the move is a
/// pawn advancing two ranks — then to the skipped square — and clears it
/// otherwise. In particular, a recorded target never survives the next
/// move's application.
pub proof fn lemma_en_passant_bookkeeping(s: BoardState, m: Move)
    ensures
        (s.squares[m.from as int].kind() == PAWN && (m.to as int - m.from as int == 16 || m.to as int
            - m.from as int == -16)) ==> spec_apply(s, m).en_passant == Some(
            m.to as int - spec_forward(s.active_color) * 8,
        ),
        !(s.squares[m.from as int].kind() == PAWN && (m.to as int - m.from as int == 16
            || m.to as int - m.from as int == -16)) ==> spec_apply(s, m).en_passant is None,
{
}

/// Applying a move never grants a castling right: the rights after are a
/// subset of the rights before, so a right once revoked stays revoked
/// through every later move, even if king or rook return to their home
/// squares.
pub proof fn lemma_castle_rights_monotone(s: BoardState, m: Move)
    ensures
        spec_apply(s, m).castle_rights.subset_of(s.castle_rights),
{
}

/// A two-file king move is generated only as a castle: the wing's right
/// is still held, every square between king and rook is empty, and
/// neither the king's square nor either square it crosses is attacked by
/// the opponent.
#[verifier::rlimit(100)]
#[verifier::spinoff_prover]
pub proof fn lemma_castle_excluded(s: BoardState, m: Move)
    requires
        s.wf(),
        spec_legal_moves(s).contains(m),
        s.squares[m.from as int].kind() == KING,
        m.to as int - m.from as int == 2 || m.to as int - m.from as int == -2,
    ensures
        m.to as int - m.from as int == 2 ==> ({
            let at = m.from as int;
            let opp = s.active_color.spec_other();
            &&& s.castle_rights.intersects(spec_castle_right(s.active_color, Direction::East))
            &&& s.squares[at + 1].code == 0 && s.squares[at + 2].code == 0
            &&& !spec_attacked(s, opp, at) && !spec_attacked(s, opp, at + 1) && !spec_attacked(
                s,
                opp,
                at + 2,
            )
        }),
        m.to as int - m.from as int == -2 ==> ({
            let at = m.from as int;
            let opp = s.active_color.spec_other();
            &&& s.castle_rights.intersects(spec_castle_right(s.active_color, Direction::West))
            &&& s.squares[at - 1].code == 0 && s.squares[at - 2].code == 0 && s.squares[at - 3].code
                == 0
            &&& !spec_attacked(s, opp, at) && !spec_attacked(s, opp, at - 1) && !spec_attacked(
                s,
                opp,
                at - 2,
            )
        }),
{
    lemma_legal_member(s, m);
    let a = s.active_color;
    let at = m.from as int;
    assert(spec_moves_for(s, at).contains(m));
    assert(s.squares[at].has_color(a));
    assert(spec_king_moves(s, at).contains(m));
    assert forall|d: Direction| #[trigger] spec_king_step(s, at, d).contains(m) implies false by {
        crate::geometry::lemma_ray_step(at, d, 1);
        let t = crate::gen_attacks::ray_sq(at, d, 1);
        if emit(s, Move { from: at as usize, to: t as usize, promote: None }).contains(m) {
            assert(m.to as int == t);
        }
    }
    assert(spec_castle(s, at, Direction::West).contains(m) || spec_castle(
        s,
        at,
        Direction::East,
    ).contains(m));
    if spec_castle(s, at, Direction::West).contains(m) {
        assert(m.to as int == at - 2);
    }
    if spec_castle(s, at, Direction::East).contains(m) {
        assert(m.to as int == at + 2);
    }
}

/// The terminal scores of a search: at positive depth, a position with no
/// legal moves values to the worst score when the side to move is in
/// check (checkmate), and to zero otherwise (stalemate).
pub proof fn lemma_terminal_scores<F: ScoreFn>(s: BoardState, depth: nat, f: F)
    requires
        depth > 0,
        spec_legal_moves(s).len() == 0,
    ensures
        spec_in_check(s, s.active_color) ==> spec_search(s, depth, f) == (0int, -SCORE_INF as int),
        !spec_in_check(s, s.active_color) ==> spec_search(s, depth, f) == (0int, 0int),
{
}

/// A search at depth zero returns the scoring function's own value,
/// unchanged, with move index zero.
pub proof fn lemma_search_depth_zero<F: ScoreFn>(s: BoardState, f: F)
    ensures
        spec_search(s, 0, f) == (0int, f.spec_score(s)),
{
}

proof fn lemma_loop_depth_one<F: ScoreFn>(
    s: BoardState,
    moves: Seq<Move>,
    f: F,
    i: int,
    best_i: int,
    best: int,
)
    requires
        0 <= i <= moves.len(),
        moves.len() > 0,
        forall|s2: BoardState| -SCORE_INF < #[trigger] f.spec_score(s2) < SCORE_INF,
        (i == 0 && best_i == 0 && best == -SCORE_INF) || (0 <= best_i < i && best
            == -f.spec_score(spec_apply(s, moves[best_i])) && (forall|j: int|
            0 <= j < i ==> -f.spec_score(spec_apply(s, #[trigger] moves[j])) <= best) && (forall|
            j: int,
        |
            0 <= j < best_i ==> -f.spec_score(spec_apply(s, #[trigger] moves[j])) < best)),
    ensures
        ({
            let r = spec_search_loop(s, moves, 1, f, i, best_i, best);
            &&& 0 <= r.0 < moves.len()
            &&& r.1 == -f.spec_score(spec_apply(s, moves[r.0]))
            &&& forall|j: int|
                i <= j < moves.len() ==> -f.spec_score(spec_apply(s, #[trigger] moves[j])) <= r.1
            &&& (i > 0 ==> (forall|j: int|
                0 <= j < i ==> -f.spec_score(spec_apply(s, #[trigger] moves[j])) <= r.1))
            &&& forall|j: int|
                0 <= j < r.0 ==> -f.spec_score(spec_apply(s, #[trigger] moves[j])) < r.1
        }),
    decreases moves.len() - i,
{
    if i >= moves.len() {
    } else {
        let sub = spec_search(spec_apply(s, moves[i]), 0, f);
        assert(sub == (0int, f.spec_score(spec_apply(s, moves[i]))));
        let score = -sub.1;
        if score > best {
            lemma_loop_depth_one(s, moves, f, i + 1, i, score);
        } else {
            lemma_loop_depth_one(s, moves, f, i + 1, best_i, best);
        }
    }
}

/// A search at depth one selects, among all legal moves in generation
/// order, the earliest move maximizing the negation of the scoring
/// function applied to the position after that move. Stated for scoring
/// functions within the score range, as the scoring contract demands.
pub proof fn lemma_search_depth_one<F: ScoreFn>(s: BoardState, f: F)
    requires
        spec_legal_moves(s).len() > 0,
        forall|s2: BoardState| -SCORE_INF < #[trigger] f.spec_score(s2) < SCORE_INF,
    ensures
        ({
            let moves = spec_legal_moves(s);
            let r = spec_search(s, 1, f);
            &&& 0 <= r.0 < moves.len()
            &&& r.1 == -f.spec_score(spec_apply(s, moves[r.0]))
            &&& forall|j: int|
                0 <= j < moves.len() ==> -f.spec_score(spec_apply(s, #[trigger] moves[j])) <= r.1
            &&& forall|j: int|
                0 <= j < r.0 ==> -f.spec_score(spec_apply(s, #[trigger] moves[j])) < r.1
        }),
{
    let moves = spec_legal_moves(s);
    lemma_loop_depth_one(s, moves, f, 0, 0, -SCORE_INF as int);
    assert(spec_search(s, 1, f) == spec_search_loop(s, moves, 1, f, 0, 0, -SCORE_INF as int));
}

} // verus!

//! The search engine: an exhaustive negamax over the legal moves,
//! parameterized by a pluggable scoring function. Scores are always from
//! the perspective of the side to move, so the opponent's best score is
//! negated; a position with no legal moves scores the worst possible
//! value in check (checkmate) and zero otherwise (stalemate).

use vstd::prelude::*;

use crate::board::spec_apply;
use crate::board::Board;
use crate::board::BoardState;
use crate::gen_attacks::spec_in_check;
use crate::gen_moves::lemma_apply_preserves_wf;
use crate::gen_moves::lemma_legal_member;
use crate::gen_moves::spec_legal_moves;
use crate::moves::Move;
use crate::pieces::Player;

verus! {

broadcast use vstd::array::group_array_axioms;

/// The score of a lost game; every scoring function stays strictly
/// inside the open interval between its negation and itself.
pub const SCORE_INF: i64 = 1_000_000_000_000;

/// A scoring strategy: a zero-sum score for a position, from the
/// perspective of the side to move. `spec_score` is its mathematical
/// meaning, binding whenever the strategy is deterministic.
pub trait ScoreFn: Sized {
    /// The score the strategy assigns to a position.
    spec fn spec_score(&self, s: BoardState) -> int;

    /// Whether the strategy's result depends on the position alone.
    spec fn deterministic(&self) -> bool;

    /// Scores a position.
    fn score(&self, board: &Board) -> (r: i64)
        ensures
            -SCORE_INF < r < SCORE_INF,
            self.deterministic() ==> r as int == self.spec_score(board@),
    ;
}

/// The value and best index of a negamax search to the given depth: the
/// score function itself at depth zero; the worst score in check and zero
/// otherwise when no legal move exists; otherwise the first legal move
/// whose negated recursive score strictly exceeds every earlier one.
pub open spec fn spec_search<F: ScoreFn>(s: BoardState, depth: nat, f: F) -> (int, int)
    decreases depth, 1int, 0int,
{
    if depth == 0 {
        (0, f.spec_score(s))
    } else {
        let moves = spec_legal_moves(s);
        if moves.len() == 0 {
            if spec_in_check(s, s.active_color) {
                (0, -SCORE_INF as int)
            } else {
                (0, 0)
            }
        } else {
            spec_search_loop(s, moves, depth, f, 0, 0, -SCORE_INF as int)
        }
    }
}

/// The running state of the negamax loop: from move `i` on, with the best
/// index and score seen so far; ties keep the earliest move.
pub open spec fn spec_search_loop<F: ScoreFn>(
    s: BoardState,
    moves: Seq<Move>,
    depth: nat,
    f: F,
    i: int,
    best_i: int,
    best: int,
) -> (int, int)
    decreases depth, 0int, moves.len() - i,
{
    if i >= moves.len() || depth == 0 {
        (best_i, best)
    } else {
        let sub = spec_search(spec_apply(s, moves[i]), (depth - 1) as nat, f);
        let score = -sub.1;
        if score > best {
            spec_search_loop(s, moves, depth, f, i + 1, i, score)
        } else {
            spec_search_loop(s, moves, depth, f, i + 1, best_i, best)
        }
    }
}

/// The sum of the material values of the squares below `n`.
pub open spec fn spec_material_upto(s: BoardState, n: int) -> int
    decreases n,
{
    if n <= 0 {
        0
    } else {
        spec_material_upto(s, n - 1) + s.squares[n - 1].score_value_spec()
    }
}

/// The total material balance, from the side to move's perspective.
pub open spec fn spec_score_material(s: BoardState) -> int {
    spec_material_upto(s, 64) * (if s.active_color is Black {
        -1int
    } else {
        1int
    })
}

impl Board {
    /// Searches the game tree to `depth` plies and returns the index of
    /// the best legal move together with its negamax score. At depth zero
    /// the score is the scoring function's own value and the index is
    /// zero; with no legal moves the index is zero and the score is the
    /// terminal value.
    pub fn search<F: ScoreFn>(&self, depth: u32, scoring: &F) -> (r: (usize, i64))
        requires
            self@.wf(),
            !spec_in_check(self@, self@.active_color.spec_other()),
        ensures
            -SCORE_INF <= r.1 <= SCORE_INF,
            depth == 0 || spec_legal_moves(self@).len() == 0 ==> r.0 == 0,
            depth > 0 && spec_legal_moves(self@).len() > 0 ==> (r.0 as int) < spec_legal_moves(
                self@,
            ).len(),
            depth > 0 && spec_legal_moves(self@).len() == 0 ==> r.1 == (if spec_in_check(
                self@,
                self@.active_color,
            ) {
                -SCORE_INF
            } else {
                0
            }),
            scoring.deterministic() ==> (r.0 as int, r.1 as int) == spec_search(
                self@,
                depth as nat,
                *scoring,
            ),
        decreases depth,
    {
        if depth == 0 {
            let sc = scoring.score(self);
            return (0, sc);
        }
        let moves = self.generate_moves();
        if moves.len() == 0 {
            if self.is_in_check(self.active_color) {
                return (0, -SCORE_INF);
            } else {
                return (0, 0);
            }
        }
        let ghost s = self@;
        let ghost mvs = moves@;
        let mut best_i: usize = 0;
        let mut best: i64 = -SCORE_INF;
        let mut i: usize = 0;
        while i < moves.len()
            invariant
                i <= moves.len(),
                s == self@,
                mvs == moves@,
                moves@ == spec_legal_moves(s),
                moves@.len() > 0,
                depth >= 1,
                s.wf(),
                !spec_in_check(s, s.active_color.spec_other()),
                -SCORE_INF <= best <= SCORE_INF,
                best_i < moves@.len(),
                scoring.deterministic() ==> spec_search_loop(
                    s,
                    mvs,
                    depth as nat,
                    *scoring,
                    i as int,
                    best_i as int,
                    best as int,
                ) == spec_search_loop(s, mvs, depth as nat, *scoring, 0, 0, -SCORE_INF as int),
            decreases moves.len() - i,
        {
            let m = moves[i];
            proof {
                assert(spec_legal_moves(s)[i as int] == m);
                assert(spec_legal_moves(s).contains(m));
                lemma_legal_member(s, m);
                lemma_apply_preserves_wf(s, m);
            }
            let mut board = self.clone();
            board.make_move_unchecked(m);
            let sub = board.search(depth - 1, scoring);
            let score = -sub.1;
            if score > best {
                best = score;
                best_i = i;
            }
            i += 1;
        }
        (best_i, best)
    }

    /// The best legal move found by a search to `depth` plies, or nothing
    /// when the position has no legal moves.
    pub fn get_best_move<F: ScoreFn>(&self, depth: u32, scoring: &F) -> (r: Option<Move>)
        requires
            self@.wf(),
            !spec_in_check(self@, self@.active_color.spec_other()),
        ensures
            spec_legal_moves(self@).len() == 0 <==> r is None,
            r matches Some(m) ==> spec_legal_moves(self@).contains(m),
            scoring.deterministic() && depth > 0 && spec_legal_moves(self@).len() > 0
                ==> r == Some(
                spec_legal_moves(self@)[spec_search(self@, depth as nat, *scoring).0],
            ),
    {
        let moves = self.generate_moves();
        let (idx, _score) = self.search(depth, scoring);
        if idx < moves.len() {
            let m = moves[idx];
            proof {
                assert(spec_legal_moves(self@)[idx as int] == m);
                assert(spec_legal_moves(self@).contains(m));
            }
            Some(m)
        } else {
            None
        }
    }

    /// The material balance for the side to move: pawn 1, knight and
    /// bishop 3, rook 5, queen 9, counting own pieces positively.
    pub fn score_material(&self) -> (r: i32)
        ensures
            r as int == spec_score_material(self@),
            -576 <= r <= 576,
    {
        let mut sum: i32 = 0;
        let mut idx: usize = 0;
        while idx < 64
            invariant
                idx <= 64,
                sum as int == spec_material_upto(self@, idx as int),
                -9 * idx <= sum <= 9 * idx,
            decreases 64 - idx,
        {
            sum = sum + self.squares[idx].score_value();
            idx += 1;
        }
        let mult: i32 = if self.active_color == Player::Black {
            -1
        } else {
            1
        };
        sum * mult
    }

    /// A placeholder scorer for testing: a uniformly random value,
    /// deliberately ignoring the position.
    pub fn bogo_score(&self) -> (r: i64)
        ensures
            -SCORE_INF < r < SCORE_INF,
    {
        random_i32() as i64
    }
}

/// Relies on rand::random: draws a 32-bit integer from the thread-local
/// generator; nothing is promised of its value beyond its type's range.
#[verifier::external_body]
fn random_i32() -> (r: i32)
    ensures
        -0x8000_0000 <= r <= 0x7fff_ffff,
{
    rand::random::<i32>()
}

/// The material-balance scoring strategy.
pub struct MaterialScorer;

impl ScoreFn for MaterialScorer {
    open spec fn spec_score(&self, s: BoardState) -> int {
        spec_score_material(s)
    }

    open spec fn deterministic(&self) -> bool {
        true
    }

    fn score(&self, board: &Board) -> (r: i64)
        ensures
            -SCORE_INF < r < SCORE_INF,
            self.deterministic() ==> r as int == self.spec_score(board@),
    {
        board.score_material() as i64
    }
}

/// The random placeholder scoring strategy; never the default for
/// reproducible behavior.
pub struct BogoScorer;

impl ScoreFn for BogoScorer {
    open spec fn spec_score(&self, s: BoardState) -> int {
        0
    }

    open spec fn deterministic(&self) -> bool {
        false
    }

    fn score(&self, board: &Board) -> (r: i64)
        ensures
            -SCORE_INF < r < SCORE_INF,
            self.deterministic() ==> r as int == self.spec_score(board@),
    {
        board.bogo_score()
    }
}

} // verus!

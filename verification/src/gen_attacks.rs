//! Attack maps: for a player, the set of squares its pieces threaten, and
//! the check test built on it. A square is threatened when some piece of
//! the player reaches it by its movement pattern — a clear ray for sliders,
//! a jump for knights, the forward diagonals for pawns, one step for kings
//! — and the square does not hold the player's own piece.

use vstd::prelude::*;

use crate::board::Board;
use crate::board::BoardState;
use crate::board::spec_forward;
use crate::geometry::file_of;
use crate::geometry::on_board;
use crate::geometry::rank_of;
use crate::geometry::ste;
use crate::geometry::lemma_ray_step;
use crate::geometry::squares_to_edge;
use crate::geometry::Direction;
use crate::pieces::Piece;
use crate::pieces::Player;
use crate::pieces::BISHOP;
use crate::pieces::KING;
use crate::pieces::KNIGHT;
use crate::pieces::PAWN;
use crate::pieces::QUEEN;
use crate::pieces::ROOK;

verus! {

broadcast use vstd::array::group_array_axioms;

/// The square `j` steps from `start` in direction `d`.
pub open spec fn ray_sq(start: int, d: Direction, j: int) -> int {
    start + j * d.offset_spec()
}

pub open spec fn sq_empty(s: BoardState, i: int) -> bool {
    s.squares[i].code == 0
}

/// The first `k - 1` steps of the ray from `start` in direction `d` cross
/// only empty squares.
pub open spec fn ray_clear(s: BoardState, start: int, d: Direction, k: int) -> bool {
    forall|j: int| 1 <= j < k ==> sq_empty(s, #[trigger] ray_sq(start, d, j))
}

/// A slider on `start` reaches `t` along direction `d`: `t` lies on the
/// ray within the board, every square strictly before it is empty, and `t`
/// does not hold one of the attacker's own pieces.
pub open spec fn spec_ray_attacks(s: BoardState, p: Player, start: int, d: Direction, t: int) -> bool {
    exists|k: int|
        1 <= k <= ste(start, d) && t == #[trigger] ray_sq(start, d, k) && ray_clear(s, start, d, k)
            && !s.squares[t].has_color(p)
}

pub open spec fn rook_dir(d: Direction) -> bool {
    d is North || d is South || d is West || d is East
}

/// The ray directions a piece kind slides in.
pub open spec fn kind_has_dir(kind: int, d: Direction) -> bool {
    if kind == QUEEN {
        true
    } else if kind == ROOK {
        rook_dir(d)
    } else if kind == BISHOP {
        !rook_dir(d)
    } else {
        false
    }
}

pub open spec fn spec_sliding_threat(s: BoardState, p: Player, at: int, t: int) -> bool {
    exists|d: Direction|
        kind_has_dir(s.squares[at].kind(), d) && #[trigger] spec_ray_attacks(s, p, at, d, t)
}

/// The knight jump by `(dx, dy)` from `at` stays on the board and lands
/// on `t`.
pub open spec fn knight_jump(at: int, dx: int, dy: int, t: int) -> bool {
    &&& 0 <= file_of(at) + dx < 8
    &&& 0 <= rank_of(at) + dy < 8
    &&& t == at + dy * 8 + dx
}

/// The eight knight offsets.
pub open spec fn knight_shape(dx: int, dy: int) -> bool {
    ||| (dx == -2 && dy == 1)
    ||| (dx == -1 && dy == 2)
    ||| (dx == 1 && dy == 2)
    ||| (dx == 2 && dy == 1)
    ||| (dx == 2 && dy == -1)
    ||| (dx == 1 && dy == -2)
    ||| (dx == -1 && dy == -2)
    ||| (dx == -2 && dy == -1)
}

pub open spec fn spec_knight_threat(s: BoardState, p: Player, at: int, t: int) -> bool {
    &&& !s.squares[t].has_color(p)
    &&& exists|dx: int, dy: int| knight_shape(dx, dy) && #[trigger] knight_jump(at, dx, dy, t)
}

/// A pawn threatens exactly its two forward diagonals, board edge and its
/// own color permitting — never its push squares.
pub open spec fn spec_pawn_threat(s: BoardState, p: Player, at: int, t: int) -> bool {
    let fv = spec_forward(p);
    &&& 0 <= rank_of(at) + fv < 8
    &&& !s.squares[t].has_color(p)
    &&& ((file_of(at) >= 1 && t == at + fv * 8 - 1) || (file_of(at) <= 6 && t == at + fv * 8 + 1))
}

pub open spec fn spec_king_threat(s: BoardState, p: Player, at: int, t: int) -> bool {
    &&& !s.squares[t].has_color(p)
    &&& exists|d: Direction| ste(at, d) >= 1 && t == #[trigger] ray_sq(at, d, 1)
}

/// Whether the piece standing on `at` threatens `t`, by the pattern of its
/// piece kind.
pub open spec fn spec_threatens(s: BoardState, p: Player, at: int, t: int) -> bool {
    let k = s.squares[at].kind();
    if k == BISHOP || k == ROOK || k == QUEEN {
        spec_sliding_threat(s, p, at, t)
    } else if k == KNIGHT {
        spec_knight_threat(s, p, at, t)
    } else if k == PAWN {
        spec_pawn_threat(s, p, at, t)
    } else if k == KING {
        spec_king_threat(s, p, at, t)
    } else {
        false
    }
}

/// Some piece of `p` on a square before `n` threatens `t`.
pub open spec fn spec_attacked_upto(s: BoardState, p: Player, t: int, n: int) -> bool {
    exists|at: int|
        0 <= at < n && s.squares[at].has_color(p) && #[trigger] spec_threatens(s, p, at, t)
}

/// Some piece of `p` threatens `t`.
pub open spec fn spec_attacked(s: BoardState, p: Player, t: int) -> bool {
    spec_attacked_upto(s, p, t, 64)
}

/// `p`'s king stands on a square attacked by the opponent.
pub open spec fn spec_in_check(s: BoardState, p: Player) -> bool {
    spec_attacked(s, p.spec_other(), s.king_sq(p))
}

proof fn lemma_attacked_upto_step(s: BoardState, p: Player, t: int, n: int)
    requires
        0 <= n,
    ensures
        spec_attacked_upto(s, p, t, n + 1) == (spec_attacked_upto(s, p, t, n) || (
        s.squares[n].has_color(p) && spec_threatens(s, p, n, t))),
{
    if spec_attacked_upto(s, p, t, n + 1) {
        let at = choose|at: int|
            0 <= at < n + 1 && s.squares[at].has_color(p) && #[trigger] spec_threatens(s, p, at, t);
        if at < n {
            assert(spec_attacked_upto(s, p, t, n));
        }
    }
    if s.squares[n].has_color(p) && spec_threatens(s, p, n, t) {
        assert(0 <= n < n + 1 && s.squares[n].has_color(p) && spec_threatens(s, p, n, t));
    }
    if spec_attacked_upto(s, p, t, n) {
        let at = choose|at: int|
            0 <= at < n && s.squares[at].has_color(p) && #[trigger] spec_threatens(s, p, at, t);
        assert(0 <= at < n + 1 && s.squares[at].has_color(p) && spec_threatens(s, p, at, t));
    }
}

impl Board {
    /// Whether `player`'s king stands attacked by the opponent.
    pub fn is_in_check(&self, player: Player) -> (r: bool)
        requires
            self@.wf_squares(),
            self@.has_king(player),
            self@.king_unique(player),
        ensures
            r == spec_in_check(self@, player),
    {
        let king_pos = self.find_king(player);
        let attacks = self.generate_attacks(player.other());
        attacks[king_pos]
    }

    /// The squares attacked by `player`, as a board-sized boolean map.
    pub fn generate_attacks(&self, player: Player) -> (r: [bool; 64])
        requires
            self@.wf_squares(),
        ensures
            forall|t: int| 0 <= t < 64 ==> r@[t] == spec_attacked(self@, player, t),
    {
        let mut map: [bool; 64] = [false; 64];
        proof {
            assert forall|t: int| 0 <= t < 64 implies !spec_attacked_upto(self@, player, t, 0) by {}
        }
        let mut idx: usize = 0;
        while idx < 64
            invariant
                idx <= 64,
                self@.wf_squares(),
                map@.len() == 64,
                forall|t: int| 0 <= t < 64 ==> map@[t] == spec_attacked_upto(self@, player, t, idx as int),
            decreases 64 - idx,
        {
            if self.squares[idx].is_color(player) {
                self.get_attacked_squares_for(&mut map, player, idx);
            }
            proof {
                assert forall|t: int| 0 <= t < 64 implies map@[t] == spec_attacked_upto(
                    self@,
                    player,
                    t,
                    idx as int + 1,
                ) by {
                    lemma_attacked_upto_step(self@, player, t, idx as int);
                }
            }
            idx += 1;
        }
        map
    }

    /// Adds to `map` every square the piece on `idx` threatens, by the
    /// pattern of its piece kind.
    pub fn get_attacked_squares_for(&self, map: &mut [bool; 64], player: Player, idx: usize)
        requires
            idx < 64,
            self@.wf_squares(),
        ensures
            forall|t: int|
                0 <= t < 64 ==> final(map)@[t] == (old(map)@[t] || spec_threatens(
                    self@,
                    player,
                    idx as int,
                    t,
                )),
    {
        let piece = self.piece_at_idx(idx);
        let piece_type = piece.piece_type();
        if piece.is_sliding() {
            self.get_attacked_sliding(map, player, idx, piece);
        } else if piece_type == KNIGHT {
            self.get_attacked_knight(map, player, idx);
        } else if piece_type == PAWN {
            self.get_attacked_pawn(map, player, idx);
        } else if piece_type == KING {
            self.get_attacked_king(map, player, idx);
        }
    }

    fn get_attacked_sliding(&self, map: &mut [bool; 64], player: Player, start: usize, piece: Piece)
        requires
            start < 64,
            self@.wf_squares(),
            piece == self@.squares[start as int],
            piece.kind() == BISHOP || piece.kind() == ROOK || piece.kind() == QUEEN,
        ensures
            forall|t: int|
                0 <= t < 64 ==> final(map)@[t] == (old(map)@[t] || spec_sliding_threat(
                    self@,
                    player,
                    start as int,
                    t,
                )),
    {
        let ghost kind = piece.kind();
        let piece_type = piece.piece_type();
        if piece_type == ROOK || piece_type == QUEEN {
            self.attack_ray(map, player, start, Direction::North);
            self.attack_ray(map, player, start, Direction::South);
            self.attack_ray(map, player, start, Direction::West);
            self.attack_ray(map, player, start, Direction::East);
        }
        if piece_type == BISHOP || piece_type == QUEEN {
            self.attack_ray(map, player, start, Direction::NorthWest);
            self.attack_ray(map, player, start, Direction::SouthEast);
            self.attack_ray(map, player, start, Direction::NorthEast);
            self.attack_ray(map, player, start, Direction::SouthWest);
        }
        proof {
            let s = self@;
            let at = start as int;
            assert forall|t: int| 0 <= t < 64 implies final(map)@[t] == (old(map)@[t]
                || spec_sliding_threat(s, player, at, t)) by {
                if spec_sliding_threat(s, player, at, t) {
                    let d = choose|d: Direction|
                        kind_has_dir(s.squares[at].kind(), d) && #[trigger] spec_ray_attacks(
                            s,
                            player,
                            at,
                            d,
                            t,
                        );
                    assert(kind_has_dir(kind, d) && spec_ray_attacks(s, player, at, d, t));
                    match d {
                        Direction::North => {},
                        Direction::South => {},
                        Direction::West => {},
                        Direction::East => {},
                        Direction::NorthWest => {},
                        Direction::SouthEast => {},
                        Direction::NorthEast => {},
                        Direction::SouthWest => {},
                    }
                }
            }
        }
    }

    /// Marks the squares reached along one ray: step outward to the edge,
    /// stopping before a friendly piece, stopping after an enemy piece.
    fn attack_ray(&self, map: &mut [bool; 64], player: Player, start: usize, dir: Direction)
        requires
            start < 64,
            self@.wf_squares(),
        ensures
            forall|t: int|
                0 <= t < 64 ==> final(map)@[t] == (old(map)@[t] || spec_ray_attacks(
                    self@,
                    player,
                    start as int,
                    dir,
                    t,
                )),
    {
        let ghost s = self@;
        let ghost at = start as int;
        let n_max = squares_to_edge(start, dir);
        let off = dir.offset();
        let mut n: usize = 0;
        loop
            invariant_except_break
                n <= n_max,
                start < 64,
                s == self@,
                self@.wf_squares(),
                map@.len() == 64,
                n_max as int == ste(at, dir),
                n_max <= 7,
                at == start as int,
                off as int == dir.offset_spec(),
                -9 <= off <= 9,
                forall|j: int|
                    1 <= j <= n ==> on_board(#[trigger] ray_sq(at, dir, j)) && sq_empty(
                        s,
                        ray_sq(at, dir, j),
                    ),
                forall|t: int|
                    0 <= t < 64 ==> map@[t] == (old(map)@[t] || exists|k: int|
                        1 <= k <= n && t == #[trigger] ray_sq(at, dir, k)),
            ensures
                map@.len() == 64,
                forall|t: int|
                    0 <= t < 64 ==> map@[t] == (old(map)@[t] || spec_ray_attacks(s, player, at, dir, t)),
            decreases n_max - n,
        {
            if n >= n_max {
                // ran to the edge: everything on the ray is empty and marked
                proof {
                    assert forall|t: int| 0 <= t < 64 implies map@[t] == (old(map)@[t]
                        || spec_ray_attacks(s, player, at, dir, t)) by {
                        if spec_ray_attacks(s, player, at, dir, t) {
                            let k = choose|k: int|
                                1 <= k <= ste(at, dir) && t == #[trigger] ray_sq(at, dir, k)
                                    && ray_clear(s, at, dir, k) && !s.squares[t].has_color(player);
                            assert(1 <= k <= n && t == ray_sq(at, dir, k));
                        }
                        if map@[t] && !old(map)@[t] {
                            let k = choose|k: int| 1 <= k <= n && t == #[trigger] ray_sq(at, dir, k);
                            assert(ray_clear(s, at, dir, k));
                            assert(!s.squares[ray_sq(at, dir, k)].has_color(player));
                            assert(spec_ray_attacks(s, player, at, dir, t));
                        }
                    }
                }
                break;
            }
            proof {
                lemma_ray_step(at, dir, n as int + 1);
                assert(off as int * (n as int + 1) == (n as int + 1) * dir.offset_spec())
                    by (nonlinear_arith)
                    requires
                        off as int == dir.offset_spec(),
                ;
                assert(start as int + off as int * (n as int + 1) == ray_sq(at, dir, n as int + 1));
                assert(on_board(ray_sq(at, dir, n as int + 1)));
            }
            let target = (start as isize + off * (n as isize + 1)) as usize;
            proof {
                assert(target as int == ray_sq(at, dir, n as int + 1));
                assert(on_board(target as int));
            }
            let target_piece = self.squares[target];

            if target_piece.is_color(player) {
                // blocked by a friendly piece: it is not attacked, nor is
                // anything beyond it
                proof {
                    assert forall|t: int| 0 <= t < 64 implies map@[t] == (old(map)@[t]
                        || spec_ray_attacks(s, player, at, dir, t)) by {
                        if spec_ray_attacks(s, player, at, dir, t) {
                            let k = choose|k: int|
                                1 <= k <= ste(at, dir) && t == #[trigger] ray_sq(at, dir, k)
                                    && ray_clear(s, at, dir, k) && !s.squares[t].has_color(player);
                            if k == n + 1 {
                                assert(!s.squares[ray_sq(at, dir, k)].has_color(player));
                                assert(false);
                            } else if k > n + 1 {
                                assert(!sq_empty(s, ray_sq(at, dir, n as int + 1)));
                                assert(false);
                            }
                        }
                        if map@[t] && !old(map)@[t] {
                            let k = choose|k: int| 1 <= k <= n && t == #[trigger] ray_sq(at, dir, k);
                            assert(ray_clear(s, at, dir, k));
                            assert(spec_ray_attacks(s, player, at, dir, t));
                        }
                    }
                }
                break;
            }

            map[target] = true;

            if target_piece.is_color(player.other()) {
                // an enemy piece is attacked, and blocks the ray beyond it
                proof {
                    assert forall|t: int| 0 <= t < 64 implies map@[t] == (old(map)@[t]
                        || spec_ray_attacks(s, player, at, dir, t)) by {
                        if spec_ray_attacks(s, player, at, dir, t) {
                            let k = choose|k: int|
                                1 <= k <= ste(at, dir) && t == #[trigger] ray_sq(at, dir, k)
                                    && ray_clear(s, at, dir, k) && !s.squares[t].has_color(player);
                            if k > n + 1 {
                                assert(!sq_empty(s, ray_sq(at, dir, n as int + 1)));
                                assert(false);
                            }
                            assert(map@[t]);
                        }
                        if map@[t] && !old(map)@[t] {
                            if t == ray_sq(at, dir, n as int + 1) {
                                assert(ray_clear(s, at, dir, n as int + 1));
                                assert(spec_ray_attacks(s, player, at, dir, t));
                            } else {
                                let k = choose|k: int|
                                    1 <= k <= n && t == #[trigger] ray_sq(at, dir, k);
                                assert(ray_clear(s, at, dir, k));
                                assert(spec_ray_attacks(s, player, at, dir, t));
                            }
                        }
                    }
                }
                break;
            }

            proof {
                assert(s.squares[target as int].wf());
                if s.squares[target as int].code != 0 {
                    crate::pieces::lemma_wf_occupied(s.squares[target as int]);
                }
                assert(sq_empty(s, ray_sq(at, dir, n as int + 1)));
                assert forall|t: int| 0 <= t < 64 implies map@[t] == (old(map)@[t] || exists|k: int|
                    1 <= k <= n + 1 && t == #[trigger] ray_sq(at, dir, k)) by {
                    if map@[t] && !old(map)@[t] {
                        if t != ray_sq(at, dir, n as int + 1) {
                            let k = choose|k: int| 1 <= k <= n && t == #[trigger] ray_sq(at, dir, k);
                            assert(1 <= k <= n + 1 && t == ray_sq(at, dir, k));
                        }
                    }
                }
            }
            n += 1;
        }
    }

    fn get_attacked_knight(&self, map: &mut [bool; 64], player: Player, start: usize)
        requires
            start < 64,
        ensures
            forall|t: int|
                0 <= t < 64 ==> final(map)@[t] == (old(map)@[t] || spec_knight_threat(
                    self@,
                    player,
                    start as int,
                    t,
                )),
    {
        self.attack_knight_jump(map, player, start, -2, 1);
        self.attack_knight_jump(map, player, start, -1, 2);
        self.attack_knight_jump(map, player, start, 1, 2);
        self.attack_knight_jump(map, player, start, 2, 1);
        self.attack_knight_jump(map, player, start, 2, -1);
        self.attack_knight_jump(map, player, start, 1, -2);
        self.attack_knight_jump(map, player, start, -1, -2);
        self.attack_knight_jump(map, player, start, -2, -1);
        proof {
            let s = self@;
            let at = start as int;
            assert forall|t: int| 0 <= t < 64 implies final(map)@[t] == (old(map)@[t]
                || spec_knight_threat(s, player, at, t)) by {
                if spec_knight_threat(s, player, at, t) {
                    let (dx, dy) = choose|dx: int, dy: int|
                        knight_shape(dx, dy) && #[trigger] knight_jump(at, dx, dy, t);
                    assert(knight_jump(at, dx, dy, t));
                }
            }
        }
    }

    /// Tries one knight offset: the jump must stay within the edge
    /// distances in both of its components.
    fn attack_knight_jump(
        &self,
        map: &mut [bool; 64],
        player: Player,
        start: usize,
        dx: isize,
        dy: isize,
    )
        requires
            start < 64,
            knight_shape(dx as int, dy as int),
        ensures
            forall|t: int|
                0 <= t < 64 ==> final(map)@[t] == (old(map)@[t] || (knight_jump(
                    start as int,
                    dx as int,
                    dy as int,
                    t,
                ) && !self@.squares[t].has_color(player))),
    {
        let ghost at = start as int;
        let x_dir = if dx > 0 {
            Direction::East
        } else {
            Direction::West
        };
        let y_dir = if dy > 0 {
            Direction::North
        } else {
            Direction::South
        };
        let adx: usize = if dx > 0 {
            dx as usize
        } else {
            (-dx) as usize
        };
        let ady: usize = if dy > 0 {
            dy as usize
        } else {
            (-dy) as usize
        };
        if squares_to_edge(start, x_dir) >= adx && squares_to_edge(start, y_dir) >= ady {
            let target = (start as isize + dy * 8 + dx) as usize;
            proof {
                crate::geometry::lemma_rank_file(
                    at + dy as int * 8 + dx as int,
                    rank_of(at) + dy as int,
                    file_of(at) + dx as int,
                );
                assert(at == 8 * rank_of(at) + file_of(at));
                assert(target as int == at + dy as int * 8 + dx as int);
            }
            if !self.squares[target].is_color(player) {
                map[target] = true;
            }
        } else {
            proof {
                assert forall|t: int| !knight_jump(at, dx as int, dy as int, t) by {}
            }
        }
    }

    fn get_attacked_pawn(&self, map: &mut [bool; 64], player: Player, start: usize)
        requires
            start < 64,
        ensures
            forall|t: int|
                0 <= t < 64 ==> final(map)@[t] == (old(map)@[t] || spec_pawn_threat(
                    self@,
                    player,
                    start as int,
                    t,
                )),
    {
        let ghost at = start as int;
        let ghost fv = spec_forward(player);
        if squares_to_edge(start, player.forward_dir()) < 1 {
            return ;
        }
        let forward_target = (start as isize + player.forward_value() * 8) as usize;
        proof {
            crate::geometry::lemma_rank_file(at + fv * 8, rank_of(at) + fv, file_of(at));
            assert(at == 8 * rank_of(at) + file_of(at));
        }
        if squares_to_edge(start, Direction::West) >= 1 {
            let target = forward_target - 1;
            proof {
                crate::geometry::lemma_rank_file(at + fv * 8 - 1, rank_of(at) + fv, file_of(at) - 1);
            }
            if !self.squares[target].is_color(player) {
                map[target] = true;
            }
        }
        if squares_to_edge(start, Direction::East) >= 1 {
            let target = forward_target + 1;
            proof {
                crate::geometry::lemma_rank_file(at + fv * 8 + 1, rank_of(at) + fv, file_of(at) + 1);
            }
            if !self.squares[target].is_color(player) {
                map[target] = true;
            }
        }
    }

    fn get_attacked_king(&self, map: &mut [bool; 64], player: Player, start: usize)
        requires
            start < 64,
        ensures
            forall|t: int|
                0 <= t < 64 ==> final(map)@[t] == (old(map)@[t] || spec_king_threat(
                    self@,
                    player,
                    start as int,
                    t,
                )),
    {
        self.attack_king_step(map, player, start, Direction::North);
        self.attack_king_step(map, player, start, Direction::South);
        self.attack_king_step(map, player, start, Direction::West);
        self.attack_king_step(map, player, start, Direction::East);
        self.attack_king_step(map, player, start, Direction::NorthWest);
        self.attack_king_step(map, player, start, Direction::SouthEast);
        self.attack_king_step(map, player, start, Direction::NorthEast);
        self.attack_king_step(map, player, start, Direction::SouthWest);
        proof {
            let s = self@;
            let at = start as int;
            assert forall|t: int| 0 <= t < 64 implies final(map)@[t] == (old(map)@[t]
                || spec_king_threat(s, player, at, t)) by {
                if spec_king_threat(s, player, at, t) {
                    let d = choose|d: Direction| ste(at, d) >= 1 && t == #[trigger] ray_sq(at, d, 1);
                    match d {
                        Direction::North => {},
                        Direction::South => {},
                        Direction::West => {},
                        Direction::East => {},
                        Direction::NorthWest => {},
                        Direction::SouthEast => {},
                        Direction::NorthEast => {},
                        Direction::SouthWest => {},
                    }
                }
            }
        }
    }

    fn attack_king_step(&self, map: &mut [bool; 64], player: Player, start: usize, dir: Direction)
        requires
            start < 64,
        ensures
            forall|t: int|
                0 <= t < 64 ==> final(map)@[t] == (old(map)@[t] || (ste(start as int, dir) >= 1 && t
                    == ray_sq(start as int, dir, 1) && !self@.squares[t].has_color(player))),
    {
        if squares_to_edge(start, dir) >= 1 {
            proof {
                lemma_ray_step(start as int, dir, 1);
            }
            let target = (start as isize + dir.offset()) as usize;
            proof {
                assert(target as int == ray_sq(start as int, dir, 1));
            }
            if !self.squares[target].is_color(player) {
                map[target] = true;
            }
        }
    }
}

} // verus!
